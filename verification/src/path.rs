//! Windows-style path inspection over character sequences.
//!
//! Both `/` and `\` separate components. A component `.` is skipped and `..`
//! has no file name, as `std::path::Path` treats them.
use vstd::prelude::*;

use crate::text::{chars_of, slice_chars, string_of};

verus! {

/// Whether `c` separates path components.
pub open spec fn is_sep(c: char) -> bool {
    c == '/' || c == '\\'
}

/// Position of the last separator in `p`, or -1.
pub open spec fn last_sep(p: Seq<char>) -> int
    decreases p.len(),
{
    if p.len() == 0 {
        -1
    } else if is_sep(p.last()) {
        p.len() - 1
    } else {
        last_sep(p.drop_last())
    }
}

/// Position of the last `c` in `p`, or -1.
pub open spec fn last_pos(p: Seq<char>, c: char) -> int
    decreases p.len(),
{
    if p.len() == 0 {
        -1
    } else if p.last() == c {
        p.len() - 1
    } else {
        last_pos(p.drop_last(), c)
    }
}

pub proof fn lemma_last_sep_bounds(p: Seq<char>)
    ensures
        -1 <= last_sep(p) < p.len(),
        last_sep(p) >= 0 ==> is_sep(p[last_sep(p)]),
        forall|m: int| last_sep(p) < m < p.len() ==> !is_sep(#[trigger] p[m]),
    decreases p.len(),
{
    if p.len() > 0 && !is_sep(p.last()) {
        lemma_last_sep_bounds(p.drop_last());
        assert forall|m: int| last_sep(p) < m < p.len() implies !is_sep(#[trigger] p[m]) by {
            if m < p.len() - 1 {
                assert(p[m] == p.drop_last()[m]);
            }
        }
    }
}

pub proof fn lemma_last_pos_bounds(p: Seq<char>, c: char)
    ensures
        -1 <= last_pos(p, c) < p.len(),
        last_pos(p, c) >= 0 ==> p[last_pos(p, c)] == c,
        forall|m: int| last_pos(p, c) < m < p.len() ==> #[trigger] p[m] != c,
    decreases p.len(),
{
    if p.len() > 0 && p.last() != c {
        lemma_last_pos_bounds(p.drop_last(), c);
        assert forall|m: int| last_pos(p, c) < m < p.len() implies #[trigger] p[m] != c by {
            if m < p.len() - 1 {
                assert(p[m] == p.drop_last()[m]);
            }
        }
    }
}

/// The final component of a path, as `Path::file_name` gives it.
pub open spec fn file_name_spec(p: Seq<char>) -> Option<Seq<char>>
    decreases p.len(),
{
    if p.len() == 0 {
        None
    } else if is_sep(p.last()) {
        file_name_spec(p.drop_last())
    } else {
        let k = last_sep(p);
        let name = p.skip(k + 1);
        if name == seq!['.'] {
            if k < 0 {
                None
            } else {
                proof {
                    lemma_last_sep_bounds(p);
                }
                file_name_spec(p.take(k))
            }
        } else if name == seq!['.', '.'] {
            None
        } else if k < 0 && name.len() >= 2 && name[1] == ':' && is_drive_letter(name[0]) {
            let rest = name.skip(2);
            if rest.len() == 0 || rest == seq!['.'] || rest == seq!['.', '.'] {
                None
            } else {
                Some(rest)
            }
        } else {
            Some(name)
        }
    }
}

/// Whether `c` can name a drive: an ASCII letter.
pub open spec fn is_drive_letter(c: char) -> bool {
    ('a' <= c && c <= 'z') || ('A' <= c && c <= 'Z')
}

/// The extension of a file name: the text after its last `.`, unless that
/// dot is the first character.
pub open spec fn name_extension(name: Seq<char>) -> Option<Seq<char>> {
    let k = last_pos(name, '.');
    if k <= 0 {
        None
    } else {
        Some(name.skip(k + 1))
    }
}

/// The file name without its extension.
pub open spec fn name_stem(name: Seq<char>) -> Seq<char> {
    let k = last_pos(name, '.');
    if k <= 0 {
        name
    } else {
        name.take(k)
    }
}

/// The extension of a path, as `Path::extension` gives it.
pub open spec fn extension_spec(p: Seq<char>) -> Option<Seq<char>> {
    match file_name_spec(p) {
        None => None,
        Some(name) => name_extension(name),
    }
}

/// The final component of a path.
pub fn file_name(p: &[char]) -> (r: Option<Vec<char>>)
    ensures
        match file_name_spec(p@) {
            None => r is None,
            Some(n) => r matches Some(v) && v@ == n,
        },
{
    let mut end: usize = p.len();
    assert(p@.take(end as int) =~= p@);
    loop
        invariant
            end <= p.len(),
            file_name_spec(p@.take(end as int)) == file_name_spec(p@),
        decreases end,
    {
        // Strip trailing separators.
        let ghost e0 = end;
        while end > 0 && (p[end - 1] == '/' || p[end - 1] == '\\')
            invariant
                end <= e0 <= p.len(),
                file_name_spec(p@.take(end as int)) == file_name_spec(p@),
            decreases end,
        {
            assert(p@.take(end as int).drop_last() =~= p@.take(end - 1));
            end -= 1;
        }
        if end == 0 {
            return None;
        }
        let ghost q = p@.take(end as int);
        // Find the last separator before `end`.
        let mut k: usize = end;
        while k > 0 && !(p[k - 1] == '/' || p[k - 1] == '\\')
            invariant
                k <= end <= p.len(),
                q == p@.take(end as int),
                forall|m: int| k <= m < end ==> !is_sep(#[trigger] p@[m]),
            decreases k,
        {
            k -= 1;
        }
        proof {
            lemma_last_sep_bounds(q);
            if k > 0 {
                assert(is_sep(q[k - 1]));
            }
            assert forall|m: int| k <= m < q.len() implies !is_sep(#[trigger] q[m]) by {
                assert(q[m] == p@[m]);
            }
        }
        let ghost ls: int = k as int - 1;
        assert(last_sep(q) == ls);
        let name = slice_chars(p, k, end);
        assert(name@ =~= q.skip(ls + 1));
        if name.len() == 1 && name[0] == '.' {
            assert(name@ =~= seq!['.']);
            if k == 0 {
                return None;
            }
            assert(q.take(ls) =~= p@.take(k - 1));
            end = k - 1;
        } else if name.len() == 2 && name[0] == '.' && name[1] == '.' {
            assert(name@ =~= seq!['.', '.']);
            return None;
        } else if k == 0 && name.len() >= 2 && name[1] == ':' && (('a' <= name[0] && name[0] <= 'z') || (
        'A' <= name[0] && name[0] <= 'Z')) {
            let rest = slice_chars(&name, 2, name.len());
            assert(rest@ =~= name@.skip(2));
            if rest.len() == 0 || (rest.len() == 1 && rest[0] == '.') || (rest.len() == 2 && rest[0] == '.'
                && rest[1] == '.') {
                proof {
                    if rest.len() == 1 {
                        assert(rest@ =~= seq!['.']);
                    }
                    if rest.len() == 2 {
                        assert(rest@ =~= seq!['.', '.']);
                    }
                }
                return None;
            }
            proof {
                if rest@ == seq!['.'] {
                    assert(rest@.len() == 1);
                }
                if rest@ == seq!['.', '.'] {
                    assert(rest@.len() == 2);
                }
                if name@ == seq!['.'] {
                    assert(name@.len() == 1);
                }
                if name@ == seq!['.', '.'] {
                    assert(name@.len() == 2);
                }
            }
            return Some(rest);
        } else {
            proof {
                if name@ == seq!['.'] {
                    assert(name@.len() == 1);
                }
                if name@ == seq!['.', '.'] {
                    assert(name@.len() == 2);
                }
            }
            return Some(name);
        }
    }
}

/// The extension of a file name.
pub fn name_ext(name: &[char]) -> (r: Option<Vec<char>>)
    ensures
        match name_extension(name@) {
            None => r is None,
            Some(e) => r matches Some(v) && v@ == e,
        },
{
    let mut k: usize = name.len();
    while k > 0 && name[k - 1] != '.'
        invariant
            k <= name.len(),
            forall|m: int| k <= m < name.len() ==> #[trigger] name@[m] != '.',
        decreases k,
    {
        k -= 1;
    }
    proof {
        lemma_last_pos_bounds(name@, '.');
        if k > 0 {
            assert(name@[k - 1] == '.');
        }
    }
    assert(last_pos(name@, '.') == k - 1);
    if k <= 1 {
        None
    } else {
        let r = slice_chars(name, k, name.len());
        assert(r@ =~= name@.skip(k as int));
        Some(r)
    }
}

/// The file name of a path without its extension.
pub fn name_stem_of(name: &[char]) -> (r: Vec<char>)
    ensures
        r@ == name_stem(name@),
{
    let mut k: usize = name.len();
    while k > 0 && name[k - 1] != '.'
        invariant
            k <= name.len(),
            forall|m: int| k <= m < name.len() ==> #[trigger] name@[m] != '.',
        decreases k,
    {
        k -= 1;
    }
    proof {
        lemma_last_pos_bounds(name@, '.');
        if k > 0 {
            assert(name@[k - 1] == '.');
        }
    }
    assert(last_pos(name@, '.') == k - 1);
    if k <= 1 {
        slice_chars(name, 0, name.len())
    } else {
        slice_chars(name, 0, k - 1)
    }
}

/// The extension of a path.
pub fn extension(p: &str) -> (r: Option<String>)
    ensures
        match extension_spec(p@) {
            None => r is None,
            Some(e) => r matches Some(s) && s@ == e,
        },
{
    let v = chars_of(p);
    match file_name(&v) {
        None => None,
        Some(name) => match name_ext(&name) {
            None => None,
            Some(e) => Some(string_of(&e)),
        },
    }
}

} // verus!
