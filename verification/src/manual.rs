//! The project manual: what a repository says about itself.
//!
//! Everything here is read, never authored: the summary is the project's own
//! README prose, flattened to one plain paragraph.
use vstd::prelude::*;

use crate::command::views;
use crate::manifest::{join_seq, join_strings};
use crate::studio::{lines_spec, split_lines};
use crate::path::{last_pos, lemma_last_pos_bounds, name_ext, name_extension, name_stem, name_stem_of};
use crate::preflight::{file_at, keys_of, under, under_dir};
use crate::probe::{json_str_members, json_str_members_of, member_views, opt_views, toml_field_strs, toml_field_strs_of, ProjectProbe};
use crate::runner::{join_path, join_spec};
use crate::text::{lower_ascii_seq, lower_chars, str_equal, str_lowercase, to_lowercase};
use crate::text::{
    chars_of, is_whitespace, is_ws, order_by_keys, ordered_by_keys, pick, stably_sorted,
    starts_with_seq, str_starts_with, string_of, trim, trim_chars,
};

verus! {

broadcast use vstd::string::group_string_axioms;

/// Longest summary worth showing in a side panel.
pub const SUMMARY_CAP: usize = 420;

/// A named command the project declares beyond its runner's lifecycles.
#[derive(Debug, Clone)]
pub struct Script {
    /// Script name as declared (`dev`, `test:watch`).
    pub name: String,
    /// The command it maps to, verbatim from the manifest.
    pub command: String,
}

/// A documentation file found at the project root or in `docs/`.
#[derive(Debug, Clone)]
pub struct DocFile {
    /// Path relative to the project root, forward-slashed for display.
    pub name: String,
    /// Absolute path, so the panel can open it.
    pub path: String,
}

/// Everything the manual panel shows.
#[derive(Debug, Clone)]
pub struct Manual {
    /// First real paragraph of the README, markdown stripped.
    pub summary: Option<String>,
    /// The README that `summary` came from, when there was one.
    pub readme: Option<String>,
    /// Doc files worth linking, README first.
    pub docs: Vec<DocFile>,
    /// Scripts declared in `package.json`, or binaries in `Cargo.toml`.
    pub scripts: Vec<Script>,
}

// ---------------------------------------------------------------------------
// Inline markdown
// ---------------------------------------------------------------------------

/// The first position at or after `i` holding `c`, or -1.
pub open spec fn find_from(s: Seq<char>, i: int, c: char) -> int
    decreases s.len() - i,
{
    if i < 0 || i >= s.len() {
        -1
    } else if s[i] == c {
        i
    } else {
        find_from(s, i + 1, c)
    }
}

pub proof fn lemma_find_from(s: Seq<char>, i: int, c: char)
    requires
        0 <= i <= s.len(),
    ensures
        find_from(s, i, c) == -1 || (i <= find_from(s, i, c) < s.len() && s[find_from(s, i, c)] == c),
        forall|m: int| i <= m < (if find_from(s, i, c) < 0 { s.len() as int } else { find_from(s, i, c) }) ==> #[trigger] s[m] != c,
    decreases s.len() - i,
{
    if i < s.len() && s[i] != c {
        lemma_find_from(s, i + 1, c);
    }
}

/// Where a link target that opens at `i` ends: just past the `)` that
/// balances the nesting, or the end of the text.
pub open spec fn target_end(s: Seq<char>, i: int, depth: int) -> int
    decreases s.len() - i,
{
    if i < 0 || i >= s.len() {
        s.len() as int
    } else if s[i] == '(' {
        target_end(s, i + 1, depth + 1)
    } else if s[i] == ')' {
        if depth == 1 {
            i + 1
        } else {
            target_end(s, i + 1, depth - 1)
        }
    } else {
        target_end(s, i + 1, depth)
    }
}

pub proof fn lemma_target_end(s: Seq<char>, i: int, depth: int)
    requires
        0 <= i <= s.len(),
    ensures
        i <= target_end(s, i, depth) <= s.len(),
        i < s.len() ==> i < target_end(s, i, depth),
    decreases s.len() - i,
{
    if i < s.len() {
        lemma_target_end(s, i + 1, if s[i] == '(' { depth + 1 } else if s[i] == ')' { depth - 1 } else { depth });
    }
}

/// Whether `c` is emphasis or code markup, dropped from a summary.
pub open spec fn is_markup(c: char) -> bool {
    c == '*' || c == '_' || c == '`'
}

/// `s[i..]` with inline markdown flattened: `[label](target)` and
/// `![alt](src)` keep only the label, emphasis and code ticks are dropped.
pub open spec fn strip_at(s: Seq<char>, i: int) -> Seq<char>
    decreases s.len() - i,
{
    if i < 0 || i >= s.len() {
        Seq::empty()
    } else if s[i] == '[' {
        let k = find_from(s, i + 1, ']');
        if k < 0 {
            s.skip(i + 1)
        } else {
            proof {
                lemma_find_from(s, i + 1, ']');
            }
            let j = k + 1;
            s.subrange(i + 1, k) + if j < s.len() && s[j] == '(' {
                proof {
                    lemma_target_end(s, j, 0);
                }
                strip_at(s, target_end(s, j, 0))
            } else {
                strip_at(s, j)
            }
        }
    } else if is_markup(s[i]) {
        strip_at(s, i + 1)
    } else {
        seq![s[i]] + strip_at(s, i + 1)
    }
}

/// The words of `s[i..]`, given the characters `cur` of the word being read,
/// as `str::split_whitespace` yields them.
pub open spec fn words_from(s: Seq<char>, i: int, cur: Seq<char>) -> Seq<Seq<char>>
    decreases s.len() - i,
{
    if i < 0 || i >= s.len() {
        if cur.len() == 0 {
            Seq::empty()
        } else {
            seq![cur]
        }
    } else if is_ws(s[i]) {
        (if cur.len() == 0 {
            Seq::empty()
        } else {
            seq![cur]
        }) + words_from(s, i + 1, Seq::empty())
    } else {
        words_from(s, i + 1, cur.push(s[i]))
    }
}

/// `s` with its whitespace runs collapsed to single spaces and the ends trimmed.
pub open spec fn collapse_ws(s: Seq<char>) -> Seq<char> {
    join_seq(words_from(s, 0, Seq::empty()), " "@)
}

/// The plain text of a one-paragraph markdown summary.
pub open spec fn strip_markdown_spec(text: Seq<char>) -> Seq<char> {
    collapse_ws(strip_at(text, 0))
}

/// The words of `v`, split at whitespace.
pub fn split_words(v: &[char]) -> (r: Vec<String>)
    ensures
        views(r@) == words_from(v@, 0, Seq::empty()),
{
    let mut out: Vec<String> = Vec::new();
    let mut cur: Vec<char> = Vec::new();
    let mut i: usize = 0;
    while i < v.len()
        invariant
            i <= v.len(),
            words_from(v@, 0, Seq::empty()) == views(out@) + words_from(v@, i as int, cur@),
        decreases v.len() - i,
    {
        if is_whitespace(v[i]) {
            let ghost before = views(out@);
            if cur.len() > 0 {
                out.push(string_of(&cur));
                assert(views(out@) =~= before + seq![cur@]);
            } else {
                assert(views(out@) =~= before + Seq::<Seq<char>>::empty());
            }
            assert(before + ((if cur@.len() == 0 { Seq::empty() } else { seq![cur@] }) + words_from(v@, i + 1, Seq::empty())) =~= views(out@) + words_from(v@, i + 1, Seq::empty()));
            cur = Vec::new();
        } else {
            cur.push(v[i]);
        }
        i += 1;
    }
    let ghost before = views(out@);
    if cur.len() > 0 {
        out.push(string_of(&cur));
        assert(views(out@) =~= before + seq![cur@]);
    } else {
        assert(views(out@) =~= before + Seq::<Seq<char>>::empty());
    }
    out
}

/// Flattens the inline markdown a one-paragraph summary can contain.
///
/// Link text is kept and the target dropped (`[Vesper](docs/x.md)` gives
/// `Vesper`); emphasis and code ticks are removed; whitespace runs collapse.
pub fn strip_markdown(text: &str) -> (r: String)
    ensures
        r@ == strip_markdown_spec(text@),
{
    let v = chars_of(text);
    let mut out: Vec<char> = Vec::new();
    let mut i: usize = 0;
    while i < v.len()
        invariant
            i <= v.len(),
            v@ == text@,
            strip_at(v@, 0) == out@ + strip_at(v@, i as int),
        decreases v.len() - i,
    {
        let c = v[i];
        if c == '[' {
            let mut k: usize = i + 1;
            while k < v.len() && v[k] != ']'
                invariant
                    i < k <= v.len(),
                    forall|m: int| i + 1 <= m < k ==> #[trigger] v@[m] != ']',
                decreases v.len() - k,
            {
                k += 1;
            }
            proof {
                lemma_find_from(v@, i + 1, ']');
                if k < v.len() {
                    assert(find_from(v@, i + 1, ']') == k);
                } else {
                    assert(find_from(v@, i + 1, ']') == -1);
                }
            }
            let ghost o = out@;
            let mut m: usize = i + 1;
            while m < k
                invariant
                    i + 1 <= m <= k <= v.len(),
                    out@ == o + v@.subrange(i + 1, m as int),
                decreases k - m,
            {
                out.push(v[m]);
                assert(o + v@.subrange(i + 1, m + 1) =~= (o + v@.subrange(i + 1, m as int)).push(v@[m as int]));
                m += 1;
            }
            if k == v.len() {
                assert(v@.subrange(i + 1, k as int) =~= v@.skip(i + 1));
                assert(strip_at(v@, k as int) =~= Seq::<char>::empty());
                assert(out@ + strip_at(v@, k as int) =~= o + strip_at(v@, i as int));
                i = k;
            } else {
                let j: usize = k + 1;
                if j < v.len() && v[j] == '(' {
                    let mut depth: usize = 0;
                    let mut e: usize = j;
                    proof {
                        lemma_target_end(v@, j as int, 0);
                    }
                    loop
                        invariant_except_break
                            e > j ==> depth >= 1,
                            e == j ==> depth == 0,
                            depth <= e - j,
                            target_end(v@, e as int, depth as int) == target_end(v@, j as int, 0),
                        invariant
                            j <= e <= v.len(),
                            v@[j as int] == '(',
                        ensures
                            e == target_end(v@, j as int, 0),
                        decreases v.len() - e,
                    {
                        if e >= v.len() {
                            break;
                        }
                        let d = v[e];
                        if d == '(' {
                            depth += 1;
                        } else if d == ')' {
                            depth -= 1;
                            if depth == 0 {
                                e += 1;
                                break;
                            }
                        }
                        e += 1;
                    }
                    assert(out@ + strip_at(v@, e as int) =~= o + strip_at(v@, i as int));
                    i = e;
                } else {
                    assert(out@ + strip_at(v@, j as int) =~= o + strip_at(v@, i as int));
                    i = j;
                }
            }
        } else if c == '*' || c == '_' || c == '`' {
            i += 1;
        } else {
            let ghost o = out@;
            out.push(c);
            assert(out@ + strip_at(v@, i + 1) =~= o + strip_at(v@, i as int));
            i += 1;
        }
    }
    assert(out@ + strip_at(v@, i as int) =~= out@);
    let words = split_words(&out);
    join_strings(&words, " ")
}


// ---------------------------------------------------------------------------
// Truncation
// ---------------------------------------------------------------------------

/// `s` without trailing `.`, `,` or `;`.
pub open spec fn trim_end_punct(s: Seq<char>) -> Seq<char>
    decreases s.len(),
{
    if s.len() > 0 && (s.last() == '.' || s.last() == ',' || s.last() == ';') {
        trim_end_punct(s.drop_last())
    } else {
        s
    }
}

/// `text` cut to `cap` characters at its last space, trailing punctuation
/// dropped and an ellipsis added; unchanged when it already fits.
pub open spec fn truncate_spec(text: Seq<char>, cap: int) -> Seq<char> {
    if text.len() <= cap {
        text
    } else {
        let head = text.take(cap);
        let sp = last_pos(head, ' ');
        let cut = if sp < 0 { head.len() as int } else { sp };
        trim_end_punct(head.take(cut)) + seq!['…']
    }
}

/// Cuts `text` at the last word boundary within `cap` characters, adding an
/// ellipsis.
pub fn truncate_on_word(text: &str, cap: usize) -> (r: String)
    ensures
        r@ == truncate_spec(text@, cap as int),
{
    let v = chars_of(text);
    if v.len() <= cap {
        return string_of(&v);
    }
    let mut sp: usize = cap;
    while sp > 0 && v[sp - 1] != ' '
        invariant
            sp <= cap < v.len(),
            forall|m: int| sp <= m < cap ==> #[trigger] v@[m] != ' ',
        decreases sp,
    {
        sp -= 1;
    }
    let ghost head = v@.take(cap as int);
    proof {
        lemma_last_pos_bounds(head, ' ');
        if sp > 0 {
            assert(head[sp - 1] == ' ');
        }
        assert forall|m: int| sp <= m < head.len() implies #[trigger] head[m] != ' ' by {
            assert(head[m] == v@[m]);
        }
    }
    let cut: usize = if sp == 0 { cap } else { sp - 1 };
    assert(cut as int == (if last_pos(head, ' ') < 0 { head.len() as int } else { last_pos(head, ' ') }));
    let mut end: usize = cut;
    assert(head.take(cut as int) =~= v@.take(end as int));
    while end > 0 && (v[end - 1] == '.' || v[end - 1] == ',' || v[end - 1] == ';')
        invariant
            end <= cut <= cap < v.len(),
            trim_end_punct(v@.take(end as int)) == trim_end_punct(head.take(cut as int)),
        decreases end,
    {
        assert(v@.take(end as int).drop_last() =~= v@.take(end - 1));
        end -= 1;
    }
    let mut out = crate::text::slice_chars(&v, 0, end);
    assert(out@ =~= v@.take(end as int));
    out.push('…');
    string_of(&out)
}

// ---------------------------------------------------------------------------
// The summary paragraph
// ---------------------------------------------------------------------------

/// Whether a trimmed line is furniture to skip before the prose starts:
/// blank lines, headings, badges, images, HTML, block quotes, front-matter
/// fences, rules and code fences.
pub open spec fn skip_line(line: Seq<char>) -> bool {
    ||| line.len() == 0
    ||| starts_with_seq(line, "#"@)
    ||| starts_with_seq(line, "!["@)
    ||| starts_with_seq(line, "[!["@)
    ||| starts_with_seq(line, "<"@)
    ||| starts_with_seq(line, ">"@)
    ||| starts_with_seq(line, "---"@)
    ||| starts_with_seq(line, "==="@)
    ||| starts_with_seq(line, "```"@)
}

/// The paragraph gathered from `lines[i..]`, given the trimmed lines `para`
/// gathered so far: furniture is skipped until the first prose line, and the
/// paragraph ends at the next blank line.
pub open spec fn para_from(lines: Seq<Seq<char>>, i: int, para: Seq<Seq<char>>) -> Seq<Seq<char>>
    decreases lines.len() - i,
{
    if i < 0 || i >= lines.len() {
        para
    } else {
        let line = trim(lines[i]);
        if para.len() == 0 {
            if skip_line(line) {
                para_from(lines, i + 1, para)
            } else {
                para_from(lines, i + 1, seq![line])
            }
        } else if line.len() == 0 {
            para
        } else {
            para_from(lines, i + 1, para.push(line))
        }
    }
}

/// The README summary: the first paragraph of prose, markdown stripped and
/// cut to [`SUMMARY_CAP`]; none when there is no prose.
pub open spec fn first_paragraph_spec(markdown: Seq<char>) -> Option<Seq<char>> {
    let para = para_from(lines_spec(markdown), 0, Seq::empty());
    if para.len() == 0 {
        None
    } else {
        let t = trim(strip_markdown_spec(join_seq(para, " "@)));
        if t.len() == 0 {
            None
        } else {
            Some(truncate_spec(t, SUMMARY_CAP as int))
        }
    }
}

/// Whether a trimmed line is furniture.
fn is_furniture(line: &str) -> (r: bool)
    ensures
        r == skip_line(line@),
{
    line.unicode_len() == 0 || str_starts_with(line, "#") || str_starts_with(line, "![")
        || str_starts_with(line, "[![") || str_starts_with(line, "<") || str_starts_with(line, ">")
        || str_starts_with(line, "---") || str_starts_with(line, "===") || str_starts_with(
        line,
        "```",
    )
}

/// The first paragraph of prose in a README, skipping title and badge
/// furniture, flattened and cut to [`SUMMARY_CAP`] characters.
pub fn first_paragraph(markdown: &str) -> (r: Option<String>)
    ensures
        match first_paragraph_spec(markdown@) {
            None => r is None,
            Some(t) => r matches Some(s) && s@ == t,
        },
{
    let lines = split_lines(markdown);
    let ghost ls = views(lines@);
    let mut para: Vec<String> = Vec::new();
    assert(views(para@) =~= Seq::<Seq<char>>::empty());
    let mut i: usize = 0;
    while i < lines.len()
        invariant
            i <= lines.len(),
            ls == views(lines@),
            ls == lines_spec(markdown@),
            para_from(ls, 0, Seq::empty()) == para_from(ls, i as int, views(para@)),
        ensures
            para_from(ls, 0, Seq::empty()) == views(para@),
        decreases lines.len() - i,
    {
        let t = trim_chars(&chars_of(lines[i].as_str()));
        let line = string_of(&t);
        assert(ls[i as int] == lines@[i as int]@);
        let ghost before = views(para@);
        if para.len() == 0 {
            if !is_furniture(line.as_str()) {
                para.push(line);
                assert(views(para@) =~= seq![t@]);
            }
        } else if line.unicode_len() == 0 {
            assert(para_from(ls, i as int, views(para@)) == views(para@));
            break;
        } else {
            para.push(line);
            assert(views(para@) =~= before.push(t@));
        }
        i += 1;
    }
    if para.len() == 0 {
        return None;
    }
    let joined = join_strings(&para, " ");
    let stripped = strip_markdown(joined.as_str());
    let trimmed = trim_chars(&chars_of(stripped.as_str()));
    if trimmed.len() == 0 {
        return None;
    }
    let t = string_of(&trimmed);
    Some(truncate_on_word(t.as_str(), SUMMARY_CAP))
}


// ---------------------------------------------------------------------------
// The README
// ---------------------------------------------------------------------------

/// Whether a file name is a README under any spelling: its stem is
/// `readme` in any ASCII case.
pub open spec fn is_readme_name(name: Seq<char>) -> bool {
    lower_ascii_seq(name_stem(name)) == "readme"@
}

/// The first of `names` that is a README file in the root.
pub open spec fn readme_among<P: ProjectProbe>(p: &P, names: Seq<Seq<char>>) -> Option<Seq<char>>
    decreases names.len(),
{
    if names.len() == 0 {
        None
    } else if is_readme_name(names[0]) && file_at(p, names[0]) {
        Some(names[0])
    } else {
        readme_among(p, names.drop_first())
    }
}

/// Whether `name` is a README name.
fn readme_named(name: &str) -> (r: bool)
    ensures
        r == is_readme_name(name@),
{
    let stem = string_of(&lower_chars(&name_stem_of(&chars_of(name))));
    str_equal(stem.as_str(), "readme")
}

/// The root README under any of the usual spellings: the first root entry,
/// in listing order, whose stem is `readme` and which is a file.
pub fn find_readme<P: ProjectProbe>(probe: &P) -> (r: Option<String>)
    ensures
        match readme_among(probe, probe.listing(None)) {
            None => r is None,
            Some(n) => r matches Some(s) && s@ == n,
        },
{
    let names = probe.root_entries();
    let ghost ns = views(names@);
    let mut i: usize = 0;
    assert(ns.skip(0) =~= ns);
    while i < names.len()
        invariant
            i <= names.len(),
            ns == views(names@),
            ns == probe.listing(None),
            readme_among(probe, ns.skip(i as int)) == readme_among(probe, ns),
        decreases names.len() - i,
    {
        assert(ns.skip(i as int)[0] == names@[i as int]@);
        assert(ns.skip(i as int).drop_first() =~= ns.skip(i + 1));
        let name = names[i].as_str();
        if readme_named(name) && probe.has_path(name) && !probe.is_dir(name) {
            return Some(names[i].clone());
        }
        i += 1;
    }
    None
}

// ---------------------------------------------------------------------------
// Doc files
// ---------------------------------------------------------------------------

/// Whether a file name has the extension `md` in any ASCII case.
pub open spec fn is_md_name(name: Seq<char>) -> bool {
    match name_extension(name) {
        Some(e) => lower_ascii_seq(e) == "md"@,
        None => false,
    }
}

/// The views of name and path pairs.
pub open spec fn pair_views(v: Seq<(String, String)>) -> Seq<(Seq<char>, Seq<char>)> {
    v.map_values(|d: (String, String)| (d.0@, d.1@))
}

/// The views of doc files, as name and path.
pub open spec fn doc_views(v: Seq<DocFile>) -> Seq<(Seq<char>, Seq<char>)> {
    v.map_values(|d: DocFile| (d.name@, d.path@))
}

/// The markdown files among `names`, listed in the directory `dir` of the
/// project (the root when empty) whose absolute path is `base`: each as its
/// path relative to the root and its absolute path, in listing order.
pub open spec fn md_found<P: ProjectProbe>(
    p: &P,
    dir: Seq<char>,
    base: Seq<char>,
    names: Seq<Seq<char>>,
) -> Seq<(Seq<char>, Seq<char>)>
    decreases names.len(),
{
    if names.len() == 0 {
        Seq::empty()
    } else {
        let rest = md_found(p, dir, base, names.drop_last());
        let n = names.last();
        if is_md_name(n) && file_at(p, under(dir, n)) {
            rest.push((under(dir, n), join_spec(base, n)))
        } else {
            rest
        }
    }
}

/// The lower-cased names of doc entries, their sort keys.
pub open spec fn lower_keys(items: Seq<(Seq<char>, Seq<char>)>) -> Seq<Seq<char>> {
    items.map_values(|d: (Seq<char>, Seq<char>)| str_lowercase(d.0))
}

/// Whether a doc entry is a README: its lower-cased name starts so.
pub open spec fn readme_doc(d: (Seq<char>, Seq<char>)) -> bool {
    starts_with_seq(str_lowercase(d.0), "readme"@)
}

/// The entries of `items` that are READMEs (`want`) or are not, in order.
pub open spec fn keep(items: Seq<(Seq<char>, Seq<char>)>, want: bool) -> Seq<(Seq<char>, Seq<char>)>
    decreases items.len(),
{
    if items.len() == 0 {
        Seq::empty()
    } else if readme_doc(items.last()) == want {
        keep(items.drop_last(), want).push(items.last())
    } else {
        keep(items.drop_last(), want)
    }
}

/// `items` with READMEs moved to the front, each part in its own order.
pub open spec fn readme_first(items: Seq<(Seq<char>, Seq<char>)>) -> Seq<(Seq<char>, Seq<char>)> {
    keep(items, true) + keep(items, false)
}

/// The markdown files in the project root.
pub open spec fn root_docs<P: ProjectProbe>(p: &P, root: Seq<char>) -> Seq<(Seq<char>, Seq<char>)> {
    md_found(p, Seq::empty(), root, p.listing(None))
}

/// The markdown files in `docs/`, when that is a directory.
pub open spec fn sub_docs<P: ProjectProbe>(p: &P, root: Seq<char>) -> Seq<(Seq<char>, Seq<char>)> {
    if p.has_dir("docs"@) {
        md_found(p, "docs"@, join_spec(root, "docs"@), p.listing(Some("docs"@)))
    } else {
        Seq::empty()
    }
}

/// Whether `out` lists the doc files of the project at `root`: the root's
/// markdown files sorted by lower-cased name, then those of `docs/` sorted
/// the same way, with every README moved to the front.
pub open spec fn docs_listed<P: ProjectProbe>(p: &P, root: Seq<char>, out: Seq<(Seq<char>, Seq<char>)>) -> bool {
    let a = root_docs(p, root);
    let b = sub_docs(p, root);
    exists|sa: Seq<(Seq<char>, Seq<char>)>, sb: Seq<(Seq<char>, Seq<char>)>|
        #![trigger stably_sorted(a, lower_keys(a), sa), stably_sorted(b, lower_keys(b), sb)]
        stably_sorted(a, lower_keys(a), sa) && stably_sorted(b, lower_keys(b), sb) && out == readme_first(sa + sb)
}

/// Whether `name` has the extension `md`.
fn md_named(name: &str) -> (r: bool)
    ensures
        r == is_md_name(name@),
{
    match name_ext(&chars_of(name)) {
        None => false,
        Some(e) => {
            let l = string_of(&lower_chars(&e));
            str_equal(l.as_str(), "md")
        },
    }
}

/// The markdown files among `names`, listed in `dir` whose absolute path is
/// `base`.
fn md_files<P: ProjectProbe>(probe: &P, dir: &str, base: &str, names: &Vec<String>) -> (r: Vec<(String, String)>)
    ensures
        pair_views(r@) == md_found(probe, dir@, base@, views(names@)),
{
    let ghost ns = views(names@);
    let mut out: Vec<(String, String)> = Vec::new();
    let mut i: usize = 0;
    assert(ns.take(0) =~= Seq::<Seq<char>>::empty());
    while i < names.len()
        invariant
            i <= names.len(),
            ns == views(names@),
            pair_views(out@) == md_found(probe, dir@, base@, ns.take(i as int)),
        decreases names.len() - i,
    {
        assert(ns.take(i + 1).drop_last() =~= ns.take(i as int));
        assert(ns.take(i + 1).last() == names@[i as int]@);
        let n = names[i].as_str();
        let rel = under_dir(dir, n);
        if md_named(n) && probe.has_path(rel.as_str()) && !probe.is_dir(rel.as_str()) {
            let ghost before = pair_views(out@);
            let abs = join_path(base, n);
            out.push((rel, abs));
            assert(pair_views(out@) =~= before.push((under(dir@, n@), join_spec(base@, n@))));
        }
        i += 1;
    }
    assert(ns.take(names.len() as int) =~= ns);
    out
}

/// A copy of a name and path pair.
fn copy_pair(p: &(String, String)) -> (r: (String, String))
    ensures
        r.0@ == p.0@,
        r.1@ == p.1@,
{
    (p.0.clone(), p.1.clone())
}

/// `items` stably sorted by lower-cased name.
fn sort_by_lowercase(items: &Vec<(String, String)>) -> (r: Vec<(String, String)>)
    ensures
        stably_sorted(pair_views(items@), lower_keys(pair_views(items@)), pair_views(r@)),
{
    let ghost pv = pair_views(items@);
    let mut keys: Vec<String> = Vec::new();
    let mut i: usize = 0;
    while i < items.len()
        invariant
            i <= items.len(),
            pv == pair_views(items@),
            views(keys@) == lower_keys(pv).take(i as int),
        decreases items.len() - i,
    {
        let ghost before = views(keys@);
        let key = to_lowercase(items[i].0.as_str());
        keys.push(key);
        assert(pv[i as int] == (items@[i as int].0@, items@[i as int].1@));
        assert(views(keys@) =~= before.push(key@));
        assert(views(keys@) =~= lower_keys(pv).take(i + 1));
        i += 1;
    }
    assert(lower_keys(pv).take(items.len() as int) =~= lower_keys(pv));
    let order = order_by_keys(&keys);
    let mut out: Vec<(String, String)> = Vec::new();
    let mut j: usize = 0;
    while j < order.len()
        invariant
            j <= order.len(),
            pv == pair_views(items@),
            ordered_by_keys(lower_keys(pv), order@),
            pair_views(out@) == pick(pv, order@).take(j as int),
        decreases order.len() - j,
    {
        let k = order[j];
        assert(order@[j as int] < lower_keys(pv).len());
        let ghost before = pair_views(out@);
        let c = copy_pair(&items[k]);
        out.push(c);
        assert(pv[k as int] == (items@[k as int].0@, items@[k as int].1@));
        assert(pair_views(out@) =~= before.push((c.0@, c.1@)));
        assert(pair_views(out@) =~= pick(pv, order@).take(j + 1));
        j += 1;
    }
    assert(pick(pv, order@).take(order.len() as int) =~= pick(pv, order@));
    out
}

/// The entries of `items` that are READMEs (`want`) or are not.
fn keep_docs(items: &Vec<(String, String)>, want: bool, out: &mut Vec<(String, String)>)
    ensures
        pair_views(final(out)@) == pair_views(old(out)@) + keep(pair_views(items@), want),
{
    let ghost pv = pair_views(items@);
    let ghost start = pair_views(out@);
    let mut i: usize = 0;
    assert(pv.take(0) =~= Seq::<(Seq<char>, Seq<char>)>::empty());
    assert(start + keep(pv.take(0), want) =~= start);
    while i < items.len()
        invariant
            i <= items.len(),
            pv == pair_views(items@),
            pair_views(out@) == start + keep(pv.take(i as int), want),
        decreases items.len() - i,
    {
        assert(pv.take(i + 1).drop_last() =~= pv.take(i as int));
        assert(pv.take(i + 1).last() == pv[i as int]);
        let lower = to_lowercase(items[i].0.as_str());
        let is_readme = str_starts_with(lower.as_str(), "readme");
        if is_readme == want {
            let ghost before = pair_views(out@);
            let c = copy_pair(&items[i]);
            out.push(c);
            assert(pair_views(out@) =~= before.push((c.0@, c.1@)));
            assert(pair_views(out@) =~= before.push(pv[i as int]));
        }
        i += 1;
    }
    assert(pv.take(items.len() as int) =~= pv);
}

/// Markdown docs at the root and one level into `docs/`, each directory's
/// files sorted by lower-cased name, READMEs first.
pub fn docs<P: ProjectProbe>(probe: &P, root: &str) -> (r: Vec<DocFile>)
    ensures
        docs_listed(probe, root@, doc_views(r@)),
{
    let here = probe.root_entries();
    let a = md_files(probe, "", root, &here);
    proof {
        reveal_strlit("");
    }
    assert(""@ =~= Seq::<char>::empty());
    let sa = sort_by_lowercase(&a);
    let mut all: Vec<(String, String)> = Vec::new();
    let mut k: usize = 0;
    while k < sa.len()
        invariant
            k <= sa.len(),
            pair_views(all@) == pair_views(sa@).take(k as int),
        decreases sa.len() - k,
    {
        let ghost before = pair_views(all@);
        let c = copy_pair(&sa[k]);
        all.push(c);
        assert(pair_views(all@) =~= before.push((c.0@, c.1@)));
        assert(pair_views(all@) =~= pair_views(sa@).take(k + 1));
        k += 1;
    }
    assert(pair_views(sa@).take(sa.len() as int) =~= pair_views(sa@));
    let ghost b_items: Seq<(Seq<char>, Seq<char>)> = Seq::empty();
    let ghost sb_items: Seq<(Seq<char>, Seq<char>)> = Seq::empty();
    if probe.is_dir("docs") {
        let inside = probe.entries_in("docs");
        let base = join_path(root, "docs");
        let b = md_files(probe, "docs", base.as_str(), &inside);
        let sb = sort_by_lowercase(&b);
        let ghost head = pair_views(all@);
        let mut m: usize = 0;
        while m < sb.len()
            invariant
                m <= sb.len(),
                pair_views(all@) == head + pair_views(sb@).take(m as int),
            decreases sb.len() - m,
        {
            let ghost before = pair_views(all@);
            let c = copy_pair(&sb[m]);
            all.push(c);
            assert(pair_views(all@) =~= before.push((c.0@, c.1@)));
            assert(pair_views(all@) =~= head + pair_views(sb@).take(m + 1));
            m += 1;
        }
        assert(pair_views(sb@).take(sb.len() as int) =~= pair_views(sb@));
        proof {
            b_items = pair_views(b@);
            sb_items = pair_views(sb@);
        }
        assert(b_items == sub_docs(probe, root@));
    } else {
        assert(sub_docs(probe, root@) == Seq::<(Seq<char>, Seq<char>)>::empty());
        assert(b_items == sub_docs(probe, root@));
        assert(stably_sorted(b_items, lower_keys(b_items), sb_items)) by {
            let r: Seq<usize> = Seq::empty();
            assert(ordered_by_keys(lower_keys(b_items), r));
            assert(sb_items =~= pick(b_items, r));
        }
    }
    let mut ordered: Vec<(String, String)> = Vec::new();
    keep_docs(&all, true, &mut ordered);
    keep_docs(&all, false, &mut ordered);
    let mut out: Vec<DocFile> = Vec::new();
    let mut j: usize = 0;
    while j < ordered.len()
        invariant
            j <= ordered.len(),
            doc_views(out@) == pair_views(ordered@).take(j as int),
        decreases ordered.len() - j,
    {
        let ghost before = doc_views(out@);
        let c = copy_pair(&ordered[j]);
        let d = DocFile { name: c.0, path: c.1 };
        out.push(d);
        assert(doc_views(out@) =~= before.push((d.name@, d.path@)));
        assert(doc_views(out@) =~= pair_views(ordered@).take(j + 1));
        j += 1;
    }
    assert(pair_views(ordered@).take(ordered.len() as int) =~= pair_views(ordered@));
    assert(pair_views(ordered@) =~= readme_first(pair_views(sa@) + sb_items));
    assert(pair_views(a@) == root_docs(probe, root@));
    assert(stably_sorted(b_items, lower_keys(b_items), sb_items));
    assert(stably_sorted(pair_views(a@), lower_keys(pair_views(a@)), pair_views(sa@)));
    out
}


// ---------------------------------------------------------------------------
// Scripts
// ---------------------------------------------------------------------------

/// The views of scripts, as name and command.
pub open spec fn script_views(v: Seq<Script>) -> Seq<(Seq<char>, Seq<char>)> {
    v.map_values(|s: Script| (s.name@, s.command@))
}

/// The members whose value is a string, as name and command, in order.
pub open spec fn string_members(m: Seq<(Seq<char>, Option<Seq<char>>)>) -> Seq<(Seq<char>, Seq<char>)>
    decreases m.len(),
{
    if m.len() == 0 {
        Seq::empty()
    } else {
        let rest = string_members(m.drop_last());
        match m.last().1 {
            Some(c) => rest.push((m.last().0, c)),
            None => rest,
        }
    }
}

/// The command that runs a cargo binary.
pub open spec fn cargo_bin_command(name: Seq<char>) -> Seq<char> {
    "cargo run --bin "@ + name
}

/// The named binaries, each with the command that runs it, in order.
pub open spec fn bin_commands(names: Seq<Option<Seq<char>>>) -> Seq<(Seq<char>, Seq<char>)>
    decreases names.len(),
{
    if names.len() == 0 {
        Seq::empty()
    } else {
        let rest = bin_commands(names.drop_last());
        match names.last() {
            Some(n) => rest.push((n, cargo_bin_command(n))),
            None => rest,
        }
    }
}

/// The scripts `package.json` declares, in the order its parsed object keeps
/// them.
pub open spec fn package_scripts<P: ProjectProbe>(p: &P) -> Seq<(Seq<char>, Seq<char>)> {
    match p.contents("package.json"@) {
        Some(t) => match json_str_members_of(t, "scripts"@) {
            Some(m) => string_members(m),
            None => Seq::empty(),
        },
        None => Seq::empty(),
    }
}

/// The `[[bin]]` targets `Cargo.toml` names, in order.
pub open spec fn cargo_scripts<P: ProjectProbe>(p: &P) -> Seq<(Seq<char>, Seq<char>)> {
    match p.contents("Cargo.toml"@) {
        Some(t) => match toml_field_strs_of(t, seq!["bin"@], "name"@) {
            Some(b) => bin_commands(b),
            None => Seq::empty(),
        },
        None => Seq::empty(),
    }
}

/// Every script the project declares, `package.json` first.
pub open spec fn declared_scripts<P: ProjectProbe>(p: &P) -> Seq<(Seq<char>, Seq<char>)> {
    package_scripts(p) + cargo_scripts(p)
}

/// The names of scripts, their sort keys.
pub open spec fn script_names(items: Seq<(Seq<char>, Seq<char>)>) -> Seq<Seq<char>> {
    items.map_values(|d: (Seq<char>, Seq<char>)| d.0)
}

/// The members of a parsed object whose value is a string.
fn string_member_scripts(m: &Vec<(String, Option<String>)>, out: &mut Vec<(String, String)>)
    ensures
        pair_views(final(out)@) == pair_views(old(out)@) + string_members(member_views(m@)),
{
    let ghost mv = member_views(m@);
    let ghost start = pair_views(out@);
    let mut i: usize = 0;
    assert(mv.take(0) =~= Seq::<(Seq<char>, Option<Seq<char>>)>::empty());
    assert(start + string_members(mv.take(0)) =~= start);
    while i < m.len()
        invariant
            i <= m.len(),
            mv == member_views(m@),
            pair_views(out@) == start + string_members(mv.take(i as int)),
        decreases m.len() - i,
    {
        assert(mv.take(i + 1).drop_last() =~= mv.take(i as int));
        assert(mv.take(i + 1).last() == mv[i as int]);
        match &m[i].1 {
            Some(c) => {
                let ghost before = pair_views(out@);
                let name = m[i].0.clone();
                let cmd = c.clone();
                out.push((name, cmd));
                assert(pair_views(out@) =~= before.push((name@, cmd@)));
            },
            None => {},
        }
        i += 1;
    }
    assert(mv.take(m.len() as int) =~= mv);
}

/// The named binaries, each with the command that runs it.
fn bin_scripts(names: &Vec<Option<String>>, out: &mut Vec<(String, String)>)
    ensures
        pair_views(final(out)@) == pair_views(old(out)@) + bin_commands(opt_views(names@)),
{
    let ghost nv = opt_views(names@);
    let ghost start = pair_views(out@);
    let mut i: usize = 0;
    assert(nv.take(0) =~= Seq::<Option<Seq<char>>>::empty());
    assert(start + bin_commands(nv.take(0)) =~= start);
    while i < names.len()
        invariant
            i <= names.len(),
            nv == opt_views(names@),
            pair_views(out@) == start + bin_commands(nv.take(i as int)),
        decreases names.len() - i,
    {
        assert(nv.take(i + 1).drop_last() =~= nv.take(i as int));
        assert(nv.take(i + 1).last() == nv[i as int]);
        match &names[i] {
            Some(n) => {
                let ghost before = pair_views(out@);
                let mut cmd = chars_of("cargo run --bin ");
                let mut tail = chars_of(n.as_str());
                cmd.append(&mut tail);
                let command = string_of(&cmd);
                let name = n.clone();
                out.push((name, command));
                assert(pair_views(out@) =~= before.push((n@, cargo_bin_command(n@))));
            },
            None => {},
        }
        i += 1;
    }
    assert(nv.take(names.len() as int) =~= nv);
}

/// Named commands the project declares for itself: the string-valued
/// `scripts` of `package.json` and the `[[bin]]` targets of `Cargo.toml` (as
/// `cargo run --bin NAME`), stably sorted by name.
pub fn scripts<P: ProjectProbe>(probe: &P) -> (r: Vec<Script>)
    ensures
        stably_sorted(declared_scripts(probe), script_names(declared_scripts(probe)), script_views(r@)),
{
    let mut found: Vec<(String, String)> = Vec::new();
    assert(pair_views(found@) =~= Seq::<(Seq<char>, Seq<char>)>::empty());
    match probe.text("package.json") {
        Some(text) => match json_str_members(text.as_str(), "scripts") {
            Some(m) => string_member_scripts(&m, &mut found),
            None => {},
        },
        None => {},
    }
    assert(pair_views(found@) =~= package_scripts(probe));
    let ghost mid = pair_views(found@);
    match probe.text("Cargo.toml") {
        Some(text) => {
            let keys = keys_of(&["bin"]);
            assert(views(keys@) =~= seq!["bin"@]);
            match toml_field_strs(text.as_str(), &keys, "name") {
                Some(b) => bin_scripts(&b, &mut found),
                None => {},
            }
        },
        None => {},
    }
    assert(pair_views(found@) =~= mid + cargo_scripts(probe));
    let ghost items = pair_views(found@);
    let mut keys: Vec<String> = Vec::new();
    let mut i: usize = 0;
    while i < found.len()
        invariant
            i <= found.len(),
            items == pair_views(found@),
            views(keys@) == script_names(items).take(i as int),
        decreases found.len() - i,
    {
        let ghost before = views(keys@);
        let key = found[i].0.clone();
        keys.push(key);
        assert(items[i as int] == (found@[i as int].0@, found@[i as int].1@));
        assert(views(keys@) =~= before.push(key@));
        assert(views(keys@) =~= script_names(items).take(i + 1));
        i += 1;
    }
    assert(script_names(items).take(found.len() as int) =~= script_names(items));
    let order = order_by_keys(&keys);
    let mut out: Vec<Script> = Vec::new();
    let mut j: usize = 0;
    while j < order.len()
        invariant
            j <= order.len(),
            items == pair_views(found@),
            ordered_by_keys(script_names(items), order@),
            script_views(out@) == pick(items, order@).take(j as int),
        decreases order.len() - j,
    {
        let k = order[j];
        assert(order@[j as int] < script_names(items).len());
        let ghost before = script_views(out@);
        let c = copy_pair(&found[k]);
        let sc = Script { name: c.0, command: c.1 };
        out.push(sc);
        assert(items[k as int] == (found@[k as int].0@, found@[k as int].1@));
        assert(script_views(out@) =~= before.push((sc.name@, sc.command@)));
        assert(script_views(out@) =~= pick(items, order@).take(j + 1));
        j += 1;
    }
    assert(pick(items, order@).take(order.len() as int) =~= pick(items, order@));
    out
}

// ---------------------------------------------------------------------------
// The whole manual
// ---------------------------------------------------------------------------

/// What the manual's summary is for a README file: its first paragraph when
/// it can be read.
pub open spec fn summary_of<P: ProjectProbe>(p: &P, readme: Seq<char>) -> Option<Seq<char>> {
    match p.contents(readme) {
        Some(t) => first_paragraph_spec(t),
        None => None,
    }
}

/// The views of an optional string.
pub open spec fn opt_text(o: Option<String>) -> Option<Seq<char>> {
    match o {
        Some(s) => Some(s@),
        None => None,
    }
}

/// Reads whatever the project at `root` says about itself.
///
/// Never fails: a project with nothing to say yields an empty manual.
pub fn read<P: ProjectProbe>(probe: &P, root: &str) -> (r: Manual)
    ensures
        match readme_among(probe, probe.listing(None)) {
            None => r.readme is None && r.summary is None,
            Some(n) => opt_text(r.readme) == Some(join_spec(root@, n)) && opt_text(r.summary) == summary_of(
                probe,
                n,
            ),
        },
        docs_listed(probe, root@, doc_views(r.docs@)),
        stably_sorted(declared_scripts(probe), script_names(declared_scripts(probe)), script_views(r.scripts@)),
{
    let (summary, readme) = match find_readme(probe) {
        None => (None, None),
        Some(name) => {
            let summary = match probe.text(name.as_str()) {
                Some(text) => first_paragraph(text.as_str()),
                None => None,
            };
            (summary, Some(join_path(root, name.as_str())))
        },
    };
    Manual { summary, readme, docs: docs(probe, root), scripts: scripts(probe) }
}

} // verus!
