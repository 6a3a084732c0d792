//! Project icon discovery, and turning an extracted icon into PNG bytes.
//!
//! Discovery is read-only and bounded: icon files a project ships are found
//! by a fixed list of paths, built executables only in conventional output
//! directories, never recursively.
use vstd::prelude::*;

use crate::command::views;
use crate::path::{extension_spec, file_name_spec, name_stem};
use crate::probe::{is_listed_file, listed_file, opt_str, ProjectProbe};
use crate::runner::join_spec;
use crate::text::{
    chars_contain, chars_of, contains_seq, lemma_lex_order, lex_less, lower_ascii_seq, lower_chars,
    str_less, string_of,
};

verus! {

broadcast use vstd::string::group_string_axioms;

/// Where a project's icon comes from. Paths are absolute.
#[derive(Debug, Clone, PartialEq, Eq)]
pub enum IconSource {
    /// A `.ico` file, served as-is.
    Ico(String),
    /// A `.png` file, served as-is.
    Png(String),
    /// A built executable whose embedded icon is extracted.
    Exe(String),
}

impl IconSource {
    /// The file this icon comes from.
    pub fn path(&self) -> (r: &str)
        ensures
            r@ == match self {
                IconSource::Ico(p) => p@,
                IconSource::Png(p) => p@,
                IconSource::Exe(p) => p@,
            },
    {
        match self {
            IconSource::Ico(p) => p.as_str(),
            IconSource::Png(p) => p.as_str(),
            IconSource::Exe(p) => p.as_str(),
        }
    }
}

/// Icon files a project may ship, best first.
pub open spec fn icon_candidates() -> Seq<Seq<char>> {
    seq![
        "src-tauri/icons/icon.ico"@,
        "src-tauri/icons/128x128.png"@,
        "icons/icon.ico"@,
        "icons/icon256.png"@,
        "icons/icon128.png"@,
        "icon.ico"@,
        "app.ico"@,
        "icon.png"@,
        "assets/icon.ico"@,
        "assets/icon.png"@,
        "public/icon-512.png"@,
        "public/icon-192.png"@,
        "public/apple-touch-icon.png"@,
        "public/favicon.ico"@,
        "favicon.ico"@,
    ]
}

/// Directories searched for a built executable, in order.
pub open spec fn exe_dirs() -> Seq<Seq<char>> {
    seq![".", "target/release", "src-tauri/target/release", "dist", "build", "bin"].map_values(|s: &str| s@)
}

/// Substrings of a normalised executable name that mark build tooling.
pub open spec fn helper_markers() -> Seq<Seq<char>> {
    seq![
        "helper"@,
        "install"@,
        "uninstall"@,
        "setup"@,
        "updater"@,
        "crashpad"@,
        "crashreport"@,
        "vcredist"@,
        "redist"@,
        "vc_redist"@,
        "test"@,
        "bench"@,
        "example"@,
        "sample"@,
        "tool"@,
        "codesign"@,
        "symbolupload"@,
    ]
}

/// Whether a name looks like build tooling rather than the product.
pub open spec fn helper_like(stem: Seq<char>) -> bool {
    exists|i: int| 0 <= i < helper_markers().len() && contains_seq(lower_ascii_seq(stem), #[trigger] helper_markers()[i])
}

/// Whether a name looks like build tooling.
pub fn is_helper(stem: &str) -> (r: bool)
    ensures
        r == helper_like(stem@),
{
    let lower = lower_chars(&chars_of(stem));
    let markers = [
        "helper", "install", "uninstall", "setup", "updater", "crashpad", "crashreport", "vcredist",
        "redist", "vc_redist", "test", "bench", "example", "sample", "tool", "codesign", "symbolupload",
    ];
    let ghost ms = markers@.map_values(|s: &str| s@);
    assert(ms =~= helper_markers());
    let mut i: usize = 0;
    while i < markers.len()
        invariant
            i <= markers.len(),
            lower@ == lower_ascii_seq(stem@),
            ms == markers@.map_values(|s: &str| s@),
            ms == helper_markers(),
            forall|k: int| 0 <= k < i ==> !contains_seq(lower@, #[trigger] helper_markers()[k]),
        decreases markers.len() - i,
    {
        assert(ms[i as int] == markers@[i as int]@);
        if chars_contain(&lower, &chars_of(markers[i])) {
            return true;
        }
        i += 1;
    }
    false
}

/// `s` without `-`, `_` and spaces.
pub open spec fn squeeze(s: Seq<char>) -> Seq<char> {
    s.filter(|c: char| c != '-' && c != '_' && c != ' ')
}

/// A name as it is compared with the project's: lower-cased, without `-`,
/// `_` and spaces.
pub open spec fn normalised_name(s: Seq<char>) -> Seq<char> {
    squeeze(lower_ascii_seq(s))
}

/// `v` normalised for name comparison.
fn normalise(v: &[char]) -> (r: Vec<char>)
    ensures
        r@ == normalised_name(v@),
{
    let low = lower_chars(v);
    let ghost pred = |c: char| c != '-' && c != '_' && c != ' ';
    let mut r: Vec<char> = Vec::new();
    let mut i: usize = 0;
    assert(low@.take(0).filter(pred) =~= Seq::<char>::empty());
    while i < low.len()
        invariant
            i <= low.len(),
            pred == (|c: char| c != '-' && c != '_' && c != ' '),
            r@ == low@.take(i as int).filter(pred),
        decreases low.len() - i,
    {
        proof {
            reveal_with_fuel(Seq::<_>::filter, 1);
            assert(low@.take(i + 1).drop_last() =~= low@.take(i as int));
        }
        let c = low[i];
        if c != '-' && c != '_' && c != ' ' {
            r.push(c);
        }
        i += 1;
    }
    assert(low@.take(low.len() as int) =~= low@);
    r
}

/// Whether a file name is an executable (`.exe`, any case).
pub open spec fn is_exe_name(n: Seq<char>) -> bool {
    match extension_spec(n) {
        Some(e) => lower_ascii_seq(e) == "exe"@,
        None => false,
    }
}

/// The executable files listed in `dir`.
pub open spec fn exes_in<P: ProjectProbe>(p: &P, dir: Seq<char>) -> Seq<Seq<char>> {
    p.listing(Some(dir)).filter(|n: Seq<char>| is_exe_name(n) && listed_file(p, Some(dir), n))
}

/// Whether an executable's name ties it to the project: one normalised name
/// contains the other.
pub open spec fn names_project(exe: Seq<char>, project: Seq<char>) -> bool {
    let stem = normalised_name(name_stem(exe));
    project.len() > 0 && (contains_seq(stem, project) || contains_seq(project, stem))
}

/// Whether `x` is the least of the names of `s` satisfying `ok`.
pub open spec fn least_such(x: Seq<char>, s: Seq<Seq<char>>, ok: spec_fn(Seq<char>) -> bool) -> bool {
    s.contains(x) && ok(x) && forall|i: int| 0 <= i < s.len() && ok(#[trigger] s[i]) ==> !lex_less(s[i], x)
}

/// The executable chosen in one directory: the first, in name order, that
/// names the project; else the first that is not build tooling; else none.
pub open spec fn exe_choice(exes: Seq<Seq<char>>, project: Seq<char>) -> Option<Seq<char>> {
    let named = |n: Seq<char>| names_project(n, project);
    let product = |n: Seq<char>| !helper_like(normalised_name(name_stem(n)));
    if exists|i: int| 0 <= i < exes.len() && named(#[trigger] exes[i]) {
        Some(choose|x: Seq<char>| least_such(x, exes, named))
    } else if exists|i: int| 0 <= i < exes.len() && product(#[trigger] exes[i]) {
        Some(choose|x: Seq<char>| least_such(x, exes, product))
    } else {
        None
    }
}

/// The normalised name of the project directory `root`.
pub open spec fn project_key(root: Seq<char>) -> Seq<char> {
    match file_name_spec(root) {
        Some(n) => normalised_name(n),
        None => Seq::empty(),
    }
}

/// The executable found in `dirs[i..]`: the first directory that yields one.
pub open spec fn exe_from<P: ProjectProbe>(p: &P, root: Seq<char>, dirs: Seq<Seq<char>>, i: int) -> Option<Seq<char>>
    decreases dirs.len() - i,
{
    if i < 0 || i >= dirs.len() {
        None
    } else {
        match exe_choice(exes_in(p, dirs[i]), project_key(root)) {
            Some(n) => Some(join_spec(join_spec(root, dirs[i]), n)),
            None => exe_from(p, root, dirs, i + 1),
        }
    }
}

proof fn lemma_least_such_unique(s: Seq<Seq<char>>, ok: spec_fn(Seq<char>) -> bool, x: Seq<char>)
    requires
        least_such(x, s, ok),
    ensures
        (choose|y: Seq<char>| least_such(y, s, ok)) == x,
{
    let y = choose|y: Seq<char>| least_such(y, s, ok);
    let iy = choose|i: int| 0 <= i < s.len() && s[i] == y;
    let ix = choose|i: int| 0 <= i < s.len() && s[i] == x;
    assert(ok(s[iy]) && ok(s[ix]));
    lemma_lex_order(x, y, x);
}

/// The least executable in `exes` for which `test` holds, scanning in order.
fn least_exe(exes: &Vec<String>, project: &Vec<char>, by_name: bool) -> (r: Option<usize>)
    ensures
        match r {
            None => forall|i: int| 0 <= i < exes@.len() ==> !(if by_name {
                names_project(#[trigger] exes@[i]@, project@)
            } else {
                !helper_like(normalised_name(name_stem(exes@[i]@)))
            }),
            Some(k) => k < exes@.len() && least_such(
                exes@[k as int]@,
                views(exes@),
                if by_name {
                    |n: Seq<char>| names_project(n, project@)
                } else {
                    |n: Seq<char>| !helper_like(normalised_name(name_stem(n)))
                },
            ),
        },
{
    let ghost ok: spec_fn(Seq<char>) -> bool = if by_name {
        |n: Seq<char>| names_project(n, project@)
    } else {
        |n: Seq<char>| !helper_like(normalised_name(name_stem(n)))
    };
    let ghost vs = views(exes@);
    let mut best: Option<usize> = None;
    let mut i: usize = 0;
    while i < exes.len()
        invariant
            i <= exes@.len(),
            vs == views(exes@),
            ok == (if by_name {
                |n: Seq<char>| names_project(n, project@)
            } else {
                |n: Seq<char>| !helper_like(normalised_name(name_stem(n)))
            }),
            match best {
                None => forall|k: int| 0 <= k < i ==> !ok(#[trigger] vs[k]),
                Some(b) => b < i && ok(vs[b as int]) && forall|k: int| 0 <= k < i && ok(#[trigger] vs[k]) ==> !lex_less(vs[k], vs[b as int]),
            },
        decreases exes@.len() - i,
    {
        let name = exes[i].as_str();
        let stem = crate::path::name_stem_of(&chars_of(name));
        let key = normalise(&stem);
        let hit = if by_name {
            project.len() > 0 && (chars_contain(&key, project) || chars_contain(project, &key))
        } else {
            !is_helper(string_of(&key).as_str())
        };
        assert(hit == ok(vs[i as int]));
        if hit {
            let better = match best {
                None => true,
                Some(b) => str_less(name, exes[b].as_str()),
            };
            proof {
                if let Some(b) = best {
                    if better {
                        assert forall|k: int| 0 <= k < i + 1 && ok(#[trigger] vs[k]) implies !lex_less(vs[k], vs[i as int]) by {
                            lemma_lex_order(vs[k], vs[i as int], vs[b as int]);
                            lemma_lex_order(vs[i as int], vs[i as int], vs[i as int]);
                        }
                    } else {
                        assert forall|k: int| 0 <= k < i + 1 && ok(#[trigger] vs[k]) implies !lex_less(vs[k], vs[b as int]) by {
                            if k == i {
                                lemma_lex_order(vs[i as int], vs[b as int], vs[i as int]);
                            }
                        }
                    }
                } else {
                    lemma_lex_order(vs[i as int], vs[i as int], vs[i as int]);
                }
            }
            if better {
                best = Some(i);
            }
        }
        i += 1;
    }
    proof {
        if let Some(b) = best {
            assert(vs[b as int] == exes@[b as int]@);
            assert(vs.contains(vs[b as int]));
        } else {
            assert forall|i: int| 0 <= i < exes@.len() implies !(if by_name {
                names_project(#[trigger] exes@[i]@, project@)
            } else {
                !helper_like(normalised_name(name_stem(exes@[i]@)))
            }) by {
                assert(!ok(vs[i]));
                assert(vs[i] == exes@[i]@);
            }
        }
    }
    best
}

/// The executables among the names of `dir`.
fn exe_names<P: ProjectProbe>(probe: &P, dir: &str) -> (r: Vec<String>)
    ensures
        views(r@) == exes_in(probe, dir@),
{
    let names = probe.entries_in(dir);
    let some_dir: Option<String> = Some(dir.to_owned());
    let ghost pred = |n: Seq<char>| is_exe_name(n) && listed_file(probe, Some(dir@), n);
    let ghost all = views(names@);
    let mut r: Vec<String> = Vec::new();
    let mut i: usize = 0;
    assert(all.take(0).filter(pred) =~= Seq::<Seq<char>>::empty());
    while i < names.len()
        invariant
            i <= names@.len(),
            all == views(names@),
            pred == (|n: Seq<char>| is_exe_name(n) && listed_file(probe, Some(dir@), n)),
            opt_str(some_dir) == Some(dir@),
            views(r@) == all.take(i as int).filter(pred),
        decreases names@.len() - i,
    {
        proof {
            reveal_with_fuel(Seq::<_>::filter, 1);
            assert(all.take(i + 1).drop_last() =~= all.take(i as int));
        }
        let ext = crate::path::extension(names[i].as_str());
        let is_exe = match ext {
            Some(e) => crate::text::str_equal(string_of(&lower_chars(&chars_of(e.as_str()))).as_str(), "exe"),
            None => false,
        };
        if is_exe && is_listed_file(probe, &some_dir, names[i].as_str()) {
            let ghost before = views(r@);
            r.push(names[i].clone());
            assert(views(r@) =~= before.push(all[i as int]));
        }
        i += 1;
    }
    assert(all.take(all.len() as int) =~= all);
    r
}


/// The executable that gives a project its face: searched in the
/// conventional output directories in order, never recursively.
pub fn find_project_exe<P: ProjectProbe>(probe: &P, root: &str) -> (r: Option<String>)
    ensures
        match exe_from(probe, root@, exe_dirs(), 0) {
            None => r is None,
            Some(p) => r matches Some(s) && s@ == p,
        },
{
    let key: Vec<char> = match crate::path::file_name(&chars_of(root)) {
        Some(n) => normalise(&n),
        None => Vec::new(),
    };
    assert(key@ == project_key(root@));
    let dirs = [".", "target/release", "src-tauri/target/release", "dist", "build", "bin"];
    let ghost ds = dirs@.map_values(|s: &str| s@);
    assert(ds =~= exe_dirs());
    let mut i: usize = 0;
    while i < dirs.len()
        invariant
            i <= dirs.len(),
            ds == dirs@.map_values(|s: &str| s@),
            ds == exe_dirs(),
            key@ == project_key(root@),
            exe_from(probe, root@, exe_dirs(), 0) == exe_from(probe, root@, exe_dirs(), i as int),
        decreases dirs.len() - i,
    {
        let dir = dirs[i];
        assert(ds[i as int] == dir@);
        let exes = exe_names(probe, dir);
        let ghost named = |n: Seq<char>| names_project(n, key@);
        let ghost product = |n: Seq<char>| !helper_like(normalised_name(name_stem(n)));
        let ghost choice = exe_choice(exes_in(probe, dir@), project_key(root@));
        if let Some(k) = least_exe(&exes, &key, true) {
            proof {
                assert(exists|j: int| 0 <= j < views(exes@).len() && named(#[trigger] views(exes@)[j])) by {
                    assert(views(exes@)[k as int] == exes@[k as int]@);
                }
                lemma_least_such_unique(views(exes@), named, exes@[k as int]@);
            }
            let base = crate::runner::join_path(root, dir);
            return Some(crate::runner::join_path(base.as_str(), exes[k].as_str()));
        }
        if let Some(k) = least_exe(&exes, &key, false) {
            proof {
                assert(!exists|j: int| 0 <= j < views(exes@).len() && named(#[trigger] views(exes@)[j])) by {
                    assert forall|j: int| 0 <= j < views(exes@).len() implies !named(#[trigger] views(exes@)[j]) by {
                        assert(views(exes@)[j] == exes@[j]@);
                    }
                }
                assert(exists|j: int| 0 <= j < views(exes@).len() && product(#[trigger] views(exes@)[j])) by {
                    assert(views(exes@)[k as int] == exes@[k as int]@);
                }
                lemma_least_such_unique(views(exes@), product, exes@[k as int]@);
            }
            let base = crate::runner::join_path(root, dir);
            return Some(crate::runner::join_path(base.as_str(), exes[k].as_str()));
        }
        proof {
            assert forall|j: int| 0 <= j < views(exes@).len() implies !named(#[trigger] views(exes@)[j]) && !product(views(exes@)[j]) by {
                assert(views(exes@)[j] == exes@[j]@);
            }
        }
        i += 1;
    }
    None
}

/// How an icon source is described in contracts: its kind (0 an `.ico`, 1 a
/// `.png`, 2 an executable) and its path.
pub open spec fn icon_view(s: IconSource) -> (int, Seq<char>) {
    match s {
        IconSource::Ico(p) => (0, p@),
        IconSource::Png(p) => (1, p@),
        IconSource::Exe(p) => (2, p@),
    }
}

/// The first shipped icon file among `candidates[i..]`, typed by extension.
pub open spec fn icon_file_from<P: ProjectProbe>(p: &P, root: Seq<char>, candidates: Seq<Seq<char>>, i: int) -> Option<(int, Seq<char>)>
    decreases candidates.len() - i,
{
    if i < 0 || i >= candidates.len() {
        None
    } else if p.present(candidates[i]) && !p.has_dir(candidates[i]) {
        let png = match extension_spec(candidates[i]) {
            Some(e) => lower_ascii_seq(e) == "png"@,
            None => false,
        };
        Some((if png { 1int } else { 0int }, join_spec(root, candidates[i])))
    } else {
        icon_file_from(p, root, candidates, i + 1)
    }
}

/// Where the project's icon comes from: a shipped icon file first, else a
/// built executable.
pub open spec fn icon_source_spec<P: ProjectProbe>(p: &P, root: Seq<char>) -> Option<(int, Seq<char>)> {
    match icon_file_from(p, root, icon_candidates(), 0) {
        Some(f) => Some(f),
        None => match exe_from(p, root, exe_dirs(), 0) {
            Some(e) => Some((2int, e)),
            None => None,
        },
    }
}

/// Finds the best icon a project already has.
pub fn find_icon_source<P: ProjectProbe>(probe: &P, root: &str) -> (r: Option<IconSource>)
    ensures
        match icon_source_spec(probe, root@) {
            None => r is None,
            Some(v) => r matches Some(s) && icon_view(s) == v,
        },
{
    let candidates = [
        "src-tauri/icons/icon.ico",
        "src-tauri/icons/128x128.png",
        "icons/icon.ico",
        "icons/icon256.png",
        "icons/icon128.png",
        "icon.ico",
        "app.ico",
        "icon.png",
        "assets/icon.ico",
        "assets/icon.png",
        "public/icon-512.png",
        "public/icon-192.png",
        "public/apple-touch-icon.png",
        "public/favicon.ico",
        "favicon.ico",
    ];
    let ghost cs = candidates@.map_values(|s: &str| s@);
    assert(cs =~= icon_candidates());
    let mut i: usize = 0;
    while i < candidates.len()
        invariant
            i <= candidates.len(),
            cs == candidates@.map_values(|s: &str| s@),
            cs == icon_candidates(),
            icon_file_from(probe, root@, icon_candidates(), 0) == icon_file_from(probe, root@, icon_candidates(), i as int),
        decreases candidates.len() - i,
    {
        let c = candidates[i];
        assert(cs[i as int] == c@);
        if probe.has_path(c) && !probe.is_dir(c) {
            let path = crate::runner::join_path(root, c);
            let png = match crate::path::extension(c) {
                Some(e) => crate::text::str_equal(string_of(&lower_chars(&chars_of(e.as_str()))).as_str(), "png"),
                None => false,
            };
            return Some(if png { IconSource::Png(path) } else { IconSource::Ico(path) });
        }
        i += 1;
    }
    match find_project_exe(probe, root) {
        Some(p) => Some(IconSource::Exe(p)),
        None => None,
    }
}

// ---------------------------------------------------------------------------
// Pixels
// ---------------------------------------------------------------------------

/// Whether extracted icon dimensions are plausible: 1 to 1024 pixels a side.
pub fn plausible_icon_size(width: i32, height: i32) -> (r: bool)
    ensures
        r == (0 < width <= 1024 && 0 < height <= 1024),
{
    0 < width && width <= 1024 && 0 < height && height <= 1024
}

/// Whether every whole pixel of a BGRA buffer has zero alpha.
pub open spec fn all_clear(bgra: Seq<u8>) -> bool {
    forall|p: int| 0 <= p < bgra.len() / 4 ==> #[trigger] bgra[4 * p + 3] == 0
}

/// Whether pixel `q` of `out` is pixel `q` of `bgra` with its blue and red
/// channels swapped, and its alpha forced to 255 when `opaque`.
pub open spec fn pixel_at(bgra: Seq<u8>, out: Seq<u8>, opaque: bool, q: int) -> bool {
    &&& out[4 * q] == bgra[4 * q + 2]
    &&& out[4 * q + 1] == bgra[4 * q + 1]
    &&& out[4 * q + 2] == bgra[4 * q]
    &&& out[4 * q + 3] == (if opaque { 255u8 } else { bgra[4 * q + 3] })
}

/// The RGBA form of the BGRA buffer's whole pixels: channels swapped, and an
/// icon drawn without alpha (every alpha zero) made fully opaque rather than
/// invisible.
pub open spec fn rgba_of(bgra: Seq<u8>, out: Seq<u8>) -> bool {
    &&& out.len() == 4 * (bgra.len() / 4)
    &&& forall|q: int| 0 <= q < bgra.len() / 4 ==> #[trigger] pixel_at(bgra, out, all_clear(bgra), q)
}

/// Converts a top-down BGRA bitmap to RGBA.
pub fn bgra_to_rgba(bgra: &[u8]) -> (r: Vec<u8>)
    ensures
        rgba_of(bgra@, r@),
{
    let n = bgra.len() / 4;
    let mut clear = true;
    let mut p: usize = 0;
    while p < n
        invariant
            n == bgra.len() / 4,
            p <= n,
            clear == forall|q: int| 0 <= q < p ==> #[trigger] bgra@[4 * q + 3] == 0,
        decreases n - p,
    {
        if bgra[4 * p + 3] != 0 {
            clear = false;
        }
        p += 1;
    }
    assert(clear == all_clear(bgra@));
    let mut out: Vec<u8> = Vec::new();
    let mut p: usize = 0;
    while p < n
        invariant
            n == bgra.len() / 4,
            p <= n,
            clear == all_clear(bgra@),
            out@.len() == 4 * p,
            forall|q: int| 0 <= q < p ==> #[trigger] pixel_at(bgra@, out@, clear, q),
        decreases n - p,
    {
        let b = 4 * p;
        let ghost old = out@;
        let alpha = if clear { 255u8 } else { bgra[b + 3] };
        out.push(bgra[b + 2]);
        out.push(bgra[b + 1]);
        out.push(bgra[b]);
        out.push(alpha);
        assert(out@ =~= old + seq![bgra@[b + 2], bgra@[b + 1], bgra@[b as int], alpha]);
        assert forall|q: int| 0 <= q < p + 1 implies #[trigger] pixel_at(bgra@, out@, clear, q) by {
            if q < p {
                assert(pixel_at(bgra@, old, clear, q));
                assert(out@[4 * q] == old[4 * q]);
                assert(out@[4 * q + 1] == old[4 * q + 1]);
                assert(out@[4 * q + 2] == old[4 * q + 2]);
                assert(out@[4 * q + 3] == old[4 * q + 3]);
            }
        }
        p += 1;
    }
    out
}

/// The PNG file that encodes an 8-bit RGBA square image of side `size`.
pub uninterp spec fn png_encoding(rgba: Seq<u8>, size: u32) -> Result<Seq<u8>, Seq<char>>;

/// The eight bytes every PNG file starts with.
pub open spec fn png_signature() -> Seq<u8> {
    seq![137u8, 80u8, 78u8, 71u8, 13u8, 10u8, 26u8, 10u8]
}

/// Encodes with `png::Encoder` (RGBA, 8-bit) into memory, writing the header
/// and then the image data; a failure of either is returned as its display
/// text. The contract names the outcome `png_encoding`, and states what the
/// encoder's source shows: a written file starts with the PNG signature, a
/// zero side or a buffer that is not `size * size * 4` bytes is an error,
/// and any other square RGBA image encodes, since writing into memory cannot
/// fail.
/// The side is at most 1024, the largest plausible icon: the encoder
/// computes the buffer length `4 * size * size` in `usize` without a check,
/// so a side near `2^31` would overflow there.
#[verifier::external_body]
fn png_encode(rgba: &[u8], size: u32) -> (r: Result<Vec<u8>, String>)
    requires
        size <= 1024,
    ensures
        match r {
            Ok(b) => png_encoding(rgba@, size) == Ok::<Seq<u8>, Seq<char>>(b@) && b@.len() >= 8 && b@.take(8) == png_signature(),
            Err(e) => png_encoding(rgba@, size) == Err::<Seq<u8>, Seq<char>>(e@),
        },
        size == 0 ==> r is Err,
        rgba@.len() != (size as int) * (size as int) * 4 ==> r is Err,
        size > 0 && rgba@.len() == (size as int) * (size as int) * 4 ==> r is Ok,
{
    let mut out = Vec::new();
    {
        let mut encoder = png::Encoder::new(&mut out, size, size);
        encoder.set_color(png::ColorType::Rgba);
        encoder.set_depth(png::BitDepth::Eight);
        let mut writer = encoder.write_header().map_err(|e| format!("png header: {e}"))?;
        writer.write_image_data(rgba).map_err(|e| format!("png data: {e}"))?;
    }
    Ok(out)
}

/// The PNG bytes for an extracted square icon given as a top-down BGRA
/// bitmap: converted to RGBA, then encoded. The side is one that
/// [`plausible_icon_size`] accepts, or zero.
pub fn icon_png(bgra: &[u8], size: u32) -> (r: Result<Vec<u8>, String>)
    requires
        size <= 1024,
    ensures
        exists|rgba: Seq<u8>| rgba_of(bgra@, rgba) && match r {
            Ok(b) => png_encoding(rgba, size) == Ok::<Seq<u8>, Seq<char>>(b@) && b@.take(8) == png_signature(),
            Err(e) => png_encoding(rgba, size) == Err::<Seq<u8>, Seq<char>>(e@),
        },
        size == 0 ==> r is Err,
        size > 0 && bgra@.len() / 4 == (size as int) * (size as int) ==> r is Ok,
{
    let rgba = bgra_to_rgba(bgra);
    let r = png_encode(&rgba, size);
    assert(rgba_of(bgra@, rgba@));
    r
}

} // verus!
