//! Filename wildcard matching for `glob_matches` detection rules.
//!
//! Patterns are filenames within one directory: `*` matches any run of
//! characters (including none), `?` exactly one, and every other character
//! itself. Matching ignores case.
use vstd::prelude::*;

use crate::path::{is_sep, last_sep, lemma_last_sep_bounds};
use crate::text::{chars_of, slice_chars, string_of};

verus! {

/// Whether `name[i..]` matches `pat[j..]`.
pub open spec fn glob_from(name: Seq<char>, pat: Seq<char>, i: int, j: int) -> bool
    decreases name.len() - i + pat.len() - j,
{
    if !(0 <= i <= name.len() && 0 <= j <= pat.len()) {
        false
    } else if j == pat.len() {
        i == name.len()
    } else if pat[j] == '*' {
        glob_from(name, pat, i, j + 1) || (i < name.len() && glob_from(name, pat, i + 1, j))
    } else {
        i < name.len() && (pat[j] == '?' || pat[j] == name[i]) && glob_from(
            name,
            pat,
            i + 1,
            j + 1,
        )
    }
}

/// Whether the whole of `name` matches the whole of `pat`.
pub open spec fn glob_spec(name: Seq<char>, pat: Seq<char>) -> bool {
    glob_from(name, pat, 0, 0)
}

/// Whether pattern character `pat[j]` accepts name character `name[i]` without a star.
pub open spec fn accepts(name: Seq<char>, pat: Seq<char>, i: int, j: int) -> bool {
    pat[j] != '*' && (pat[j] == '?' || pat[j] == name[i])
}

/// Whether the star-free pattern run `pat[j..j + m]` matches `name[i..i + m]`.
pub open spec fn run_matches(name: Seq<char>, pat: Seq<char>, i: int, j: int, m: int) -> bool {
    &&& i + m <= name.len()
    &&& forall|t: int| 0 <= t < m ==> #[trigger] accepts(name, pat, i + t, j + t)
}

/// A star at `pat[j]` lets the rest of the pattern start at any later position.
proof fn lemma_star(name: Seq<char>, pat: Seq<char>, i: int, j: int)
    requires
        0 <= i <= name.len(),
        0 <= j < pat.len(),
        pat[j] == '*',
    ensures
        glob_from(name, pat, i, j) <==> exists|k: int|
            i <= k <= name.len() && #[trigger] glob_from(name, pat, k, j + 1),
    decreases name.len() - i,
{
    if i < name.len() {
        lemma_star(name, pat, i + 1, j);
        if glob_from(name, pat, i, j) {
            if !glob_from(name, pat, i, j + 1) {
                let k = choose|k: int| i + 1 <= k <= name.len() && #[trigger] glob_from(name, pat, k, j + 1);
                assert(i <= k <= name.len() && glob_from(name, pat, k, j + 1));
            } else {
                assert(glob_from(name, pat, i, j + 1));
            }
        }
        if exists|k: int| i <= k <= name.len() && #[trigger] glob_from(name, pat, k, j + 1) {
            let k = choose|k: int| i <= k <= name.len() && #[trigger] glob_from(name, pat, k, j + 1);
            if k > i {
                assert(i + 1 <= k <= name.len() && glob_from(name, pat, k, j + 1));
            }
        }
    } else {
        if exists|k: int| i <= k <= name.len() && #[trigger] glob_from(name, pat, k, j + 1) {
            let k = choose|k: int| i <= k <= name.len() && #[trigger] glob_from(name, pat, k, j + 1);
            assert(k == i);
        }
        if glob_from(name, pat, i, j) {
            assert(glob_from(name, pat, i, j + 1));
        }
    }
}

/// With the name used up, the rest of the pattern matches exactly when it is all stars.
proof fn lemma_end(name: Seq<char>, pat: Seq<char>, j: int)
    requires
        0 <= j <= pat.len(),
    ensures
        glob_from(name, pat, name.len() as int, j) <==> forall|t: int|
            j <= t < pat.len() ==> #[trigger] pat[t] == '*',
    decreases pat.len() - j,
{
    if j < pat.len() {
        lemma_end(name, pat, j + 1);
    }
}

/// A star-free run of the pattern consumes the name one character at a time.
proof fn lemma_run(name: Seq<char>, pat: Seq<char>, i: int, j: int, m: int)
    requires
        0 <= i <= name.len(),
        0 <= m,
        0 <= j,
        j + m <= pat.len(),
        forall|t: int| j <= t < j + m ==> #[trigger] pat[t] != '*',
    ensures
        glob_from(name, pat, i, j) <==> (run_matches(name, pat, i, j, m) && glob_from(
            name,
            pat,
            i + m,
            j + m,
        )),
    decreases m,
{
    if m > 0 {
        assert(pat[j] != '*');
        if i < name.len() {
            lemma_run(name, pat, i + 1, j + 1, m - 1);
            if run_matches(name, pat, i, j, m) {
                assert(accepts(name, pat, i + 0, j + 0));
                assert forall|t: int| 0 <= t < m - 1 implies #[trigger] accepts(
                    name,
                    pat,
                    i + 1 + t,
                    j + 1 + t,
                ) by {
                    assert(accepts(name, pat, i + (t + 1), j + (t + 1)));
                }
            }
            if glob_from(name, pat, i, j) {
                assert(accepts(name, pat, i, j));
                if run_matches(name, pat, i + 1, j + 1, m - 1) {
                    assert forall|t: int| 0 <= t < m implies #[trigger] accepts(
                        name,
                        pat,
                        i + t,
                        j + t,
                    ) by {
                        if t > 0 {
                            assert(accepts(name, pat, i + 1 + (t - 1), j + 1 + (t - 1)));
                        }
                    }
                }
            }
        }
    } else {
        assert(run_matches(name, pat, i, j, 0));
    }
}

/// Whether `name` matches the wildcard `pattern`, both already case-folded.
///
/// Uses two pointers with a single backtrack point: after a mismatch the most
/// recent `*` absorbs one more character and the pattern resumes just after it.
pub fn wildcard_match(name: &[char], pat: &[char]) -> (r: bool)
    ensures
        r == glob_spec(name@, pat@),
{
    let ghost goal = glob_spec(name@, pat@);
    let mut n: usize = 0;
    let mut p: usize = 0;
    let mut star_absorbed: Option<usize> = None;
    let mut after_star: usize = 0;
    while n < name.len()
        invariant
            n <= name.len(),
            p <= pat.len(),
            goal == glob_spec(name@, pat@),
            match star_absorbed {
                None => goal == glob_from(name@, pat@, n as int, p as int),
                Some(s) => {
                    &&& 1 <= after_star <= p
                    &&& s <= n
                    &&& n - s == p - after_star
                    &&& pat@[after_star - 1] == '*'
                    &&& forall|t: int| after_star <= t < p ==> #[trigger] pat@[t] != '*'
                    &&& run_matches(name@, pat@, s as int, after_star as int, p - after_star)
                    &&& goal == exists|k: int|
                        s <= k <= name.len() && #[trigger] glob_from(
                            name@,
                            pat@,
                            k,
                            after_star as int,
                        )
                },
            },
        decreases
            name.len() + 1 - match star_absorbed {
                None => 0,
                Some(s) => s,
            },
            name.len() - n,
            pat.len() - p,
    {
        let ghost old_n = n;
        let ghost old_p = p;
        if p < pat.len() && pat[p] == '*' {
            proof {
                lemma_star(name@, pat@, n as int, p as int);
                if let Some(s) = star_absorbed {
                    let a = after_star as int;
                    let m = p - a;
                    let e = exists|k: int|
                        n <= k <= name.len() && #[trigger] glob_from(name@, pat@, k, p + 1);
                    assert forall|k: int| s <= k <= name.len() && #[trigger] glob_from(
                        name@,
                        pat@,
                        k,
                        a,
                    ) implies e by {
                        lemma_run(name@, pat@, k, a, m);
                        lemma_star(name@, pat@, k + m, p as int);
                    }
                    if e {
                        lemma_run(name@, pat@, s as int, a, m);
                        assert(glob_from(name@, pat@, s as int, a));
                    }
                }
            }
            after_star = p + 1;
            star_absorbed = Some(n);
            p += 1;
            proof {
                assert(run_matches(name@, pat@, n as int, after_star as int, 0));
            }
        } else if p < pat.len() && (pat[p] == '?' || pat[p] == name[n]) {
            proof {
                match star_absorbed {
                    None => {},
                    Some(s) => {
                        let a = after_star as int;
                        assert(accepts(name@, pat@, n as int, p as int));
                        assert forall|t: int| 0 <= t < p + 1 - a implies #[trigger] accepts(
                            name@,
                            pat@,
                            s + t,
                            a + t,
                        ) by {
                            if t < p - a {
                                assert(run_matches(name@, pat@, s as int, a, p - a));
                            }
                        }
                    },
                }
            }
            n += 1;
            p += 1;
        } else {
            match star_absorbed {
                Some(absorbed) => {
                    proof {
                        let a = after_star as int;
                        let m = p - a;
                        lemma_run(name@, pat@, absorbed as int, a, m);
                        assert(!glob_from(name@, pat@, n as int, p as int));
                        assert(!glob_from(name@, pat@, absorbed as int, a));
                        let e = exists|k: int|
                            absorbed + 1 <= k <= name.len() && #[trigger] glob_from(
                                name@,
                                pat@,
                                k,
                                a,
                            );
                        if goal {
                            let k = choose|k: int|
                                absorbed <= k <= name.len() && #[trigger] glob_from(
                                    name@,
                                    pat@,
                                    k,
                                    a,
                                );
                            assert(absorbed + 1 <= k <= name.len() && glob_from(name@, pat@, k, a));
                        }
                        assert(run_matches(name@, pat@, absorbed + 1, a, 0));
                    }
                    let widened = absorbed + 1;
                    star_absorbed = Some(widened);
                    n = widened;
                    p = after_star;
                },
                None => {
                    return false;
                },
            }
        }
    }
    proof {
        lemma_end(name@, pat@, p as int);
        if let Some(s) = star_absorbed {
            let a = after_star as int;
            let m = p - a;
            lemma_run(name@, pat@, s as int, a, m);
            assert forall|k: int| s < k <= name.len() implies !#[trigger] glob_from(
                name@,
                pat@,
                k,
                a,
            ) by {
                lemma_run(name@, pat@, k, a, m);
            }
            if goal {
                let k = choose|k: int|
                    s <= k <= name.len() && #[trigger] glob_from(name@, pat@, k, a);
                assert(k == s);
            }
        }
    }
    assert(goal <==> forall|t: int| p <= t < pat.len() ==> #[trigger] pat@[t] == '*');
    let mut q: usize = p;
    while q < pat.len()
        invariant
            p <= q <= pat.len(),
            goal == glob_spec(name@, pat@),
            goal <==> forall|t: int| p <= t < pat.len() ==> #[trigger] pat@[t] == '*',
            forall|t: int| p <= t < q ==> #[trigger] pat@[t] == '*',
        decreases pat.len() - q,
    {
        if pat[q] != '*' {
            return false;
        }
        q += 1;
    }
    true
}


/// The lower-case mapping of one character, as `char::to_lowercase` yields it.
pub uninterp spec fn char_lowercase(c: char) -> Seq<char>;

/// Calls `char::to_lowercase` and collects what it yields; the contract names
/// that result `char_lowercase` and claims nothing more of the Unicode tables.
#[verifier::external_body]
fn lowercase_of(c: char) -> (r: Vec<char>)
    ensures
        r@ == char_lowercase(c),
{
    c.to_lowercase().collect()
}

/// Every character of `s` replaced by its lower-case mapping.
pub open spec fn fold_case(s: Seq<char>) -> Seq<char>
    decreases s.len(),
{
    if s.len() == 0 {
        Seq::empty()
    } else {
        fold_case(s.drop_last()) + char_lowercase(s.last())
    }
}

/// The case-folded characters of `s`.
fn fold_case_chars(s: &str) -> (r: Vec<char>)
    ensures
        r@ == fold_case(s@),
{
    let v = chars_of(s);
    let mut r: Vec<char> = Vec::new();
    let mut i: usize = 0;
    while i < v.len()
        invariant
            i <= v.len(),
            v@ == s@,
            r@ == fold_case(v@.take(i as int)),
        decreases v.len() - i,
    {
        let mut low = lowercase_of(v[i]);
        r.append(&mut low);
        assert(v@.take(i + 1).drop_last() =~= v@.take(i as int));
        i += 1;
    }
    assert(v@.take(v.len() as int) =~= v@);
    r
}

/// Whether the file name `name` matches the wildcard `pattern`, ignoring case.
///
/// `*` matches any run of characters including none; `?` matches exactly one;
/// every other character, `.` included, matches itself.
pub fn matches(name: &str, pattern: &str) -> (r: bool)
    ensures
        r == glob_spec(fold_case(name@), fold_case(pattern@)),
{
    let n = fold_case_chars(name);
    let p = fold_case_chars(pattern);
    wildcard_match(&n, &p)
}

/// The directory part and the file-name part of a pattern, split at its last
/// separator (`/` or `\\`).
pub open spec fn split_dir_spec(p: Seq<char>) -> (Option<Seq<char>>, Seq<char>) {
    let k = last_sep(p);
    if k < 0 {
        (None, p)
    } else {
        (Some(p.take(k)), p.skip(k + 1))
    }
}

/// Splits a pattern into an optional literal directory and a file-name pattern:
/// `src-tauri/target/release/*.exe` gives `src-tauri/target/release` and `*.exe`,
/// `*.csproj` gives no directory and `*.csproj`.
pub fn split_dir(pattern: &str) -> (r: (Option<String>, String))
    ensures
        match split_dir_spec(pattern@) {
            (None, name) => r.0 is None && r.1@ == name,
            (Some(dir), name) => r.0 matches Some(d) && d@ == dir && r.1@ == name,
        },
{
    let v = chars_of(pattern);
    let mut k: usize = v.len();
    while k > 0 && !(v[k - 1] == '/' || v[k - 1] == '\\')
        invariant
            k <= v.len(),
            v@ == pattern@,
            forall|m: int| k <= m < v.len() ==> !is_sep(#[trigger] v@[m]),
        decreases k,
    {
        k -= 1;
    }
    proof {
        lemma_last_sep_bounds(v@);
        if k > 0 {
            assert(is_sep(v@[k - 1]));
        }
    }
    assert(last_sep(v@) == k - 1);
    if k == 0 {
        (None, string_of(&v))
    } else {
        let dir = slice_chars(&v, 0, k - 1);
        let name = slice_chars(&v, k, v.len());
        assert(dir@ =~= v@.take(k - 1));
        assert(name@ =~= v@.skip(k as int));
        (Some(string_of(&dir)), string_of(&name))
    }
}

} // verus!
