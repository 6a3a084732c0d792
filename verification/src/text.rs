//! Character-level helpers shared by the parsers in this crate.
use vstd::prelude::*;

use crate::command::views;

verus! {

broadcast use vstd::string::group_string_axioms;

/// The characters of a string slice, in order.
pub fn chars_of(s: &str) -> (v: Vec<char>)
    ensures
        v@ == s@,
{
    let mut v: Vec<char> = Vec::new();
    for c in it: s.chars()
        invariant
            v@ == it.seq().take(it.index() as int),
            it.seq() == s@,
    {
        v.push(c);
    }
    v
}

/// Appends one character to a string.
#[verifier::external_body]
pub(crate) fn push_char(s: &mut String, c: char)
    ensures
        final(s)@ == old(s)@.push(c),
{
    s.push(c);
}

/// The Unicode lower-case form of a whole string, as `str::to_lowercase` gives it.
pub uninterp spec fn str_lowercase(s: Seq<char>) -> Seq<char>;

/// Calls `str::to_lowercase`; the contract names its result `str_lowercase`
/// and claims nothing more of the Unicode case tables.
#[verifier::external_body]
pub(crate) fn to_lowercase(s: &str) -> (r: String)
    ensures
        r@ == str_lowercase(s@),
{
    s.to_lowercase()
}

/// A string holding exactly the given characters.
pub fn string_of(v: &[char]) -> (s: String)
    ensures
        s@ == v@,
{
    let mut s = String::new();
    let mut i: usize = 0;
    while i < v.len()
        invariant
            i <= v.len(),
            s@ == v@.take(i as int),
        decreases v.len() - i,
    {
        push_char(&mut s, v[i]);
        assert(v@.take(i as int).push(v[i as int]) =~= v@.take(i + 1));
        i += 1;
    }
    assert(v@.take(v.len() as int) =~= v@);
    s
}


/// Unicode `White_Space`, the set `char::is_whitespace` tests for.
pub open spec fn is_ws(c: char) -> bool {
    let u = c as u32;
    ||| 0x09 <= u <= 0x0d
    ||| u == 0x20
    ||| u == 0x85
    ||| u == 0xa0
    ||| u == 0x1680
    ||| 0x2000 <= u <= 0x200a
    ||| u == 0x2028
    ||| u == 0x2029
    ||| u == 0x202f
    ||| u == 0x205f
    ||| u == 0x3000
}

/// Whether `c` is Unicode whitespace.
pub fn is_whitespace(c: char) -> (b: bool)
    ensures
        b == is_ws(c),
{
    let u = c as u32;
    (0x09 <= u && u <= 0x0d) || u == 0x20 || u == 0x85 || u == 0xa0 || u == 0x1680 || (0x2000
        <= u && u <= 0x200a) || u == 0x2028 || u == 0x2029 || u == 0x202f || u == 0x205f || u
        == 0x3000
}

/// `s` without its leading whitespace.
pub open spec fn trim_start(s: Seq<char>) -> Seq<char>
    decreases s.len(),
{
    if s.len() > 0 && is_ws(s[0]) {
        trim_start(s.drop_first())
    } else {
        s
    }
}

/// `s` without its trailing whitespace.
pub open spec fn trim_end(s: Seq<char>) -> Seq<char>
    decreases s.len(),
{
    if s.len() > 0 && is_ws(s.last()) {
        trim_end(s.drop_last())
    } else {
        s
    }
}

/// `s` without leading or trailing whitespace, as `str::trim` gives it.
pub open spec fn trim(s: Seq<char>) -> Seq<char> {
    trim_end(trim_start(s))
}

proof fn lemma_trim_start_skip(s: Seq<char>, i: int)
    requires
        0 <= i <= s.len(),
        forall|k: int| 0 <= k < i ==> is_ws(#[trigger] s[k]),
    ensures
        trim_start(s) == trim_start(s.skip(i)),
    decreases i,
{
    if i > 0 {
        assert(s.drop_first().skip(i - 1) =~= s.skip(i));
        lemma_trim_start_skip(s.drop_first(), i - 1);
    } else {
        assert(s.skip(0) =~= s);
    }
}

proof fn lemma_trim_end_take(s: Seq<char>, j: int)
    requires
        0 <= j <= s.len(),
        forall|k: int| j <= k < s.len() ==> is_ws(#[trigger] s[k]),
    ensures
        trim_end(s) == trim_end(s.take(j)),
    decreases s.len() - j,
{
    if j < s.len() {
        assert(s.drop_last().take(j) =~= s.take(j));
        lemma_trim_end_take(s.drop_last(), j);
    } else {
        assert(s.take(j) =~= s);
    }
}

/// The characters of `v` with surrounding whitespace removed.
pub fn trim_chars(v: &[char]) -> (r: Vec<char>)
    ensures
        r@ == trim(v@),
{
    let mut lo: usize = 0;
    while lo < v.len() && is_whitespace(v[lo])
        invariant
            lo <= v.len(),
            forall|k: int| 0 <= k < lo ==> is_ws(#[trigger] v@[k]),
        decreases v.len() - lo,
    {
        lo += 1;
    }
    proof {
        lemma_trim_start_skip(v@, lo as int);
    }
    let ghost rest = v@.skip(lo as int);
    let mut hi: usize = v.len();
    while hi > lo && is_whitespace(v[hi - 1])
        invariant
            lo <= hi <= v.len(),
            rest == v@.skip(lo as int),
            forall|k: int| hi <= k < v.len() ==> is_ws(#[trigger] v@[k]),
        decreases hi,
    {
        hi -= 1;
    }
    proof {
        assert forall|k: int| hi - lo <= k < rest.len() implies is_ws(#[trigger] rest[k]) by {
            assert(rest[k] == v@[k + lo]);
        }
        lemma_trim_end_take(rest, hi - lo);
        if hi > lo {
            assert(trim_start(rest) == rest);
        } else {
            assert(rest.take(0) =~= Seq::<char>::empty());
        }
    }
    let mut r: Vec<char> = Vec::new();
    let mut i: usize = lo;
    while i < hi
        invariant
            lo <= i <= hi <= v.len(),
            r@ == v@.subrange(lo as int, i as int),
        decreases hi - i,
    {
        r.push(v[i]);
        assert(v@.subrange(lo as int, i as int).push(v@[i as int]) =~= v@.subrange(lo as int, i + 1));
        i += 1;
    }
    assert(r@ =~= rest.take(hi - lo));
    r
}

} // verus!

verus! {

/// Whether two string slices hold the same characters.
pub fn str_equal(a: &str, b: &str) -> (r: bool)
    ensures
        r == (a@ == b@),
{
    let av = chars_of(a);
    let bv = chars_of(b);
    if av.len() != bv.len() {
        return false;
    }
    let mut i: usize = 0;
    while i < av.len()
        invariant
            av@ == a@,
            bv@ == b@,
            av.len() == bv.len(),
            i <= av.len(),
            forall|k: int| 0 <= k < i ==> av@[k] == bv@[k],
        decreases av.len() - i,
    {
        if av[i] != bv[i] {
            return false;
        }
        i += 1;
    }
    assert(av@ =~= bv@);
    true
}

} // verus!

verus! {

/// The characters `v[from..to]`.
pub fn slice_chars(v: &[char], from: usize, to: usize) -> (r: Vec<char>)
    requires
        from <= to <= v.len(),
    ensures
        r@ == v@.subrange(from as int, to as int),
{
    let mut r: Vec<char> = Vec::new();
    let mut i: usize = from;
    while i < to
        invariant
            from <= i <= to <= v.len(),
            r@ == v@.subrange(from as int, i as int),
        decreases to - i,
    {
        r.push(v[i]);
        assert(v@.subrange(from as int, i as int).push(v@[i as int]) =~= v@.subrange(from as int, i + 1));
        i += 1;
    }
    r
}

} // verus!

verus! {

/// `c` with ASCII upper-case letters mapped to lower case.
pub open spec fn lower_ascii(c: char) -> char {
    if 'A' <= c <= 'Z' {
        ((c as u32) + 32) as char
    } else {
        c
    }
}

/// `c` with ASCII lower-case letters mapped to upper case.
pub open spec fn upper_ascii(c: char) -> char {
    if 'a' <= c <= 'z' {
        ((c as u32) - 32) as char
    } else {
        c
    }
}

/// `s` with ASCII letters lower-cased, as `str::to_ascii_lowercase` gives it.
pub open spec fn lower_ascii_seq(s: Seq<char>) -> Seq<char> {
    s.map_values(|c: char| lower_ascii(c))
}

/// `s` with ASCII letters upper-cased, as `str::to_ascii_uppercase` gives it.
pub open spec fn upper_ascii_seq(s: Seq<char>) -> Seq<char> {
    s.map_values(|c: char| upper_ascii(c))
}

/// The ASCII lower-case form of one character.
pub fn to_lower_ascii(c: char) -> (r: char)
    ensures
        r == lower_ascii(c),
{
    if 'A' <= c && c <= 'Z' {
        let b = (c as u32 as u8) + 32;
        b as char
    } else {
        c
    }
}

/// The ASCII upper-case form of one character.
pub fn to_upper_ascii(c: char) -> (r: char)
    ensures
        r == upper_ascii(c),
{
    if 'a' <= c && c <= 'z' {
        let b = (c as u32 as u8) - 32;
        b as char
    } else {
        c
    }
}

/// The ASCII lower-case form of a character sequence.
pub fn lower_chars(v: &[char]) -> (r: Vec<char>)
    ensures
        r@ == lower_ascii_seq(v@),
{
    let mut r: Vec<char> = Vec::new();
    let mut i: usize = 0;
    while i < v.len()
        invariant
            i <= v.len(),
            r@ == lower_ascii_seq(v@.take(i as int)),
        decreases v.len() - i,
    {
        r.push(to_lower_ascii(v[i]));
        assert(lower_ascii_seq(v@.take(i + 1)) =~= lower_ascii_seq(v@.take(i as int)).push(lower_ascii(v@[i as int])));
        i += 1;
    }
    assert(v@.take(v.len() as int) =~= v@);
    r
}

/// The ASCII upper-case form of a character sequence.
pub fn upper_chars(v: &[char]) -> (r: Vec<char>)
    ensures
        r@ == upper_ascii_seq(v@),
{
    let mut r: Vec<char> = Vec::new();
    let mut i: usize = 0;
    while i < v.len()
        invariant
            i <= v.len(),
            r@ == upper_ascii_seq(v@.take(i as int)),
        decreases v.len() - i,
    {
        r.push(to_upper_ascii(v[i]));
        assert(upper_ascii_seq(v@.take(i + 1)) =~= upper_ascii_seq(v@.take(i as int)).push(upper_ascii(v@[i as int])));
        i += 1;
    }
    assert(v@.take(v.len() as int) =~= v@);
    r
}

/// Whether `s` occurs in `t` starting at position `at`.
pub open spec fn occurs_at(t: Seq<char>, s: Seq<char>, at: int) -> bool {
    0 <= at && at + s.len() <= t.len() && t.subrange(at, at + s.len()) == s
}

/// Whether `s` occurs anywhere in `t`, as `str::contains` tests.
pub open spec fn contains_seq(t: Seq<char>, s: Seq<char>) -> bool {
    exists|at: int| occurs_at(t, s, at)
}

/// Whether `t` starts with `s`.
pub open spec fn starts_with_seq(t: Seq<char>, s: Seq<char>) -> bool {
    occurs_at(t, s, 0)
}

/// Whether `s` occurs in `t` at `at`.
pub fn chars_occur_at(t: &[char], s: &[char], at: usize) -> (r: bool)
    ensures
        r == occurs_at(t@, s@, at as int),
{
    if at > t.len() || s.len() > t.len() - at {
        return false;
    }
    let mut k: usize = 0;
    while k < s.len()
        invariant
            at + s.len() <= t.len(),
            k <= s.len(),
            forall|m: int| 0 <= m < k ==> t@[at + m] == s@[m],
        decreases s.len() - k,
    {
        if t[at + k] != s[k] {
            assert(t@.subrange(at as int, at + s.len())[k as int] != s@[k as int]);
            return false;
        }
        k += 1;
    }
    assert(t@.subrange(at as int, at + s.len()) =~= s@);
    true
}

/// Whether `s` occurs anywhere in `t`.
pub fn chars_contain(t: &[char], s: &[char]) -> (r: bool)
    ensures
        r == contains_seq(t@, s@),
{
    if s.len() > t.len() {
        assert forall|at: int| !occurs_at(t@, s@, at) by {}
        return false;
    }
    let mut at: usize = 0;
    let last = t.len() - s.len();
    loop
        invariant
            s.len() <= t.len(),
            last == t.len() - s.len(),
            at <= last,
            forall|m: int| 0 <= m < at ==> !occurs_at(t@, s@, m),
        decreases last - at,
    {
        if chars_occur_at(t, s, at) {
            return true;
        }
        if at == last {
            assert forall|m: int| !occurs_at(t@, s@, m) by {
                if 0 <= m && m < at {
                }
            }
            return false;
        }
        at += 1;
    }
}

/// Whether `t` starts with `s`.
pub fn chars_start_with(t: &[char], s: &[char]) -> (r: bool)
    ensures
        r == starts_with_seq(t@, s@),
{
    chars_occur_at(t, s, 0)
}

/// Whether the string `t` contains the string `s`.
pub fn str_contains(t: &str, s: &str) -> (r: bool)
    ensures
        r == contains_seq(t@, s@),
{
    let tv = chars_of(t);
    let sv = chars_of(s);
    chars_contain(&tv, &sv)
}

/// Whether the string `t` starts with the string `s`.
pub fn str_starts_with(t: &str, s: &str) -> (r: bool)
    ensures
        r == starts_with_seq(t@, s@),
{
    let tv = chars_of(t);
    let sv = chars_of(s);
    chars_start_with(&tv, &sv)
}

} // verus!

verus! {

/// Whether `a` sorts strictly before `b`, comparing characters by code point
/// as `str`'s ordering does (UTF-8 byte order is code-point order).
pub open spec fn lex_less(a: Seq<char>, b: Seq<char>) -> bool
    decreases a.len(),
{
    if b.len() == 0 {
        false
    } else if a.len() == 0 {
        true
    } else if a[0] < b[0] {
        true
    } else if a[0] > b[0] {
        false
    } else {
        lex_less(a.drop_first(), b.drop_first())
    }
}

/// `lex_less` is a strict total order.
pub proof fn lemma_lex_order(a: Seq<char>, b: Seq<char>, c: Seq<char>)
    ensures
        !lex_less(a, a),
        lex_less(a, b) ==> !lex_less(b, a),
        lex_less(a, b) && lex_less(b, c) ==> lex_less(a, c),
        a != b ==> lex_less(a, b) || lex_less(b, a),
    decreases a.len(),
{
    if a.len() > 0 {
        if b.len() > 0 && c.len() > 0 {
            lemma_lex_order(a.drop_first(), b.drop_first(), c.drop_first());
        } else if b.len() > 0 {
            lemma_lex_order(a.drop_first(), b.drop_first(), c);
        } else {
            lemma_lex_order(a.drop_first(), a.drop_first(), a.drop_first());
        }
        if a != b && b.len() > 0 && a[0] == b[0] {
            assert(a.drop_first() != b.drop_first()) by {
                if a.drop_first() == b.drop_first() {
                    assert(a =~= seq![a[0]] + a.drop_first());
                    assert(b =~= seq![b[0]] + b.drop_first());
                }
            }
        }
    } else {
        if b.len() == 0 {
            assert(a =~= b);
        }
    }
}

/// Whether `a` sorts strictly before `b`.
pub fn str_less(a: &str, b: &str) -> (r: bool)
    ensures
        r == lex_less(a@, b@),
{
    let av = chars_of(a);
    let bv = chars_of(b);
    let mut i: usize = 0;
    assert(a@.skip(0) =~= a@);
    assert(b@.skip(0) =~= b@);
    while i < av.len() && i < bv.len() && av[i] == bv[i]
        invariant
            i <= av.len(),
            i <= bv.len(),
            av@ == a@,
            bv@ == b@,
            lex_less(a@, b@) == lex_less(a@.skip(i as int), b@.skip(i as int)),
        decreases av.len() - i,
    {
        assert(a@.skip(i as int).drop_first() =~= a@.skip(i + 1));
        assert(b@.skip(i as int).drop_first() =~= b@.skip(i + 1));
        i += 1;
    }
    if i == bv.len() {
        return false;
    }
    if i == av.len() {
        return true;
    }
    assert(a@.skip(i as int)[0] == av@[i as int]);
    assert(b@.skip(i as int)[0] == bv@[i as int]);
    av[i] < bv[i]
}


// ---------------------------------------------------------------------------
// Stable ordering by a text key
// ---------------------------------------------------------------------------

/// Whether position `a` of `keys` sorts before position `b`: a smaller key,
/// or the same key and a smaller position.
pub open spec fn key_before(keys: Seq<Seq<char>>, a: int, b: int) -> bool {
    lex_less(keys[a], keys[b]) || (keys[a] == keys[b] && a < b)
}

/// Whether `r` lists each position of `keys` once, ordered by key with ties
/// in position order.
pub open spec fn ordered_by_keys(keys: Seq<Seq<char>>, r: Seq<usize>) -> bool {
    &&& r.len() == keys.len()
    &&& r.no_duplicates()
    &&& forall|j: int| 0 <= j < r.len() ==> (#[trigger] r[j]) < keys.len()
    &&& forall|a: int, b: int|
        0 <= a < b < r.len() ==> key_before(keys, #[trigger] r[a] as int, #[trigger] r[b] as int)
}

/// The items at the positions `r`, in that order.
pub open spec fn pick<T>(items: Seq<T>, r: Seq<usize>) -> Seq<T> {
    r.map_values(|j: usize| items[j as int])
}

/// Whether `out` is `items` stably sorted by `keys`.
pub open spec fn stably_sorted<T>(items: Seq<T>, keys: Seq<Seq<char>>, out: Seq<T>) -> bool {
    exists|r: Seq<usize>| ordered_by_keys(keys, r) && out == pick(items, r)
}

/// The positions of `keys`, ordered by key with ties in position order (a
/// stable sort).
pub fn order_by_keys(keys: &Vec<String>) -> (r: Vec<usize>)
    ensures
        ordered_by_keys(views(keys@), r@),
{
    let ghost ks = views(keys@);
    let mut out: Vec<usize> = Vec::new();
    let mut i: usize = 0;
    while i < keys.len()
        invariant
            i <= keys.len(),
            ks == views(keys@),
            out@.len() == i,
            out@.no_duplicates(),
            forall|j: int| 0 <= j < out@.len() ==> (#[trigger] out@[j]) < i,
            forall|a: int, b: int|
                0 <= a < b < out@.len() ==> key_before(ks, #[trigger] out@[a] as int, #[trigger] out@[b] as int),
        decreases keys.len() - i,
    {
        let mut p: usize = 0;
        while p < out.len() && !str_less(keys[i].as_str(), keys[out[p]].as_str())
            invariant
                p <= out@.len(),
                i < keys.len(),
                ks == views(keys@),
                forall|j: int| 0 <= j < out@.len() ==> (#[trigger] out@[j]) < i,
                forall|j: int| 0 <= j < p ==> !lex_less(ks[i as int], ks[(#[trigger] out@[j]) as int]),
            decreases out.len() - p,
        {
            assert(ks[out@[p as int] as int] == keys@[out@[p as int] as int]@);
            p += 1;
        }
        proof {
            if p < out.len() {
                assert(ks[out@[p as int] as int] == keys@[out@[p as int] as int]@);
            }
        }
        let ghost old_out = out@;
        out.insert(p, i);
        proof {
            assert(out@ =~= old_out.insert(p as int, i));
            assert forall|a: int, b: int| 0 <= a < b < out@.len() implies key_before(
                ks,
                #[trigger] out@[a] as int,
                #[trigger] out@[b] as int,
            ) by {
                if b < p {
                    assert(out@[a] == old_out[a] && out@[b] == old_out[b]);
                } else if b == p {
                    assert(out@[a] == old_out[a]);
                    lemma_lex_order(ks[old_out[a] as int], ks[i as int], ks[i as int]);
                } else if a < p {
                    assert(out@[a] == old_out[a] && out@[b] == old_out[b - 1]);
                } else if a == p {
                    assert(out@[b] == old_out[b - 1]);
                    let kp = ks[old_out[p as int] as int];
                    let kb = ks[old_out[b - 1] as int];
                    assert(lex_less(ks[i as int], kp));
                    if b - 1 > p {
                        assert(key_before(ks, old_out[p as int] as int, old_out[b - 1] as int));
                        lemma_lex_order(ks[i as int], kp, kb);
                    }
                } else {
                    assert(out@[a] == old_out[a - 1] && out@[b] == old_out[b - 1]);
                }
            }
            assert forall|a: int, b: int| 0 <= a < b < out@.len() implies out@[a] != out@[b] by {
                if a == p {
                    assert(out@[b] == old_out[b - 1]);
                } else if b == p {
                    assert(out@[a] == old_out[a]);
                } else if a < p && b < p {
                    assert(out@[a] == old_out[a] && out@[b] == old_out[b]);
                } else if a < p {
                    assert(out@[a] == old_out[a] && out@[b] == old_out[b - 1]);
                } else {
                    assert(out@[a] == old_out[a - 1] && out@[b] == old_out[b - 1]);
                }
            }
            assert forall|j: int| 0 <= j < out@.len() implies (#[trigger] out@[j]) < i + 1 by {
                if j < p {
                    assert(out@[j] == old_out[j]);
                } else if j > p {
                    assert(out@[j] == old_out[j - 1]);
                }
            }
        }
        i += 1;
    }
    out
}


} // verus!

verus! {

/// The ten decimal digits, in order.
pub open spec fn digit_chars() -> Seq<char> {
    seq!['0', '1', '2', '3', '4', '5', '6', '7', '8', '9']
}

/// Whether `c` is an ASCII decimal digit.
pub open spec fn is_digit(c: char) -> bool {
    '0' <= c && c <= '9'
}

/// The value of a decimal digit.
pub open spec fn digit_value(c: char) -> int {
    (c as int) - ('0' as int)
}

/// The value of a run of decimal digits.
pub open spec fn digits_value(d: Seq<char>) -> int
    decreases d.len(),
{
    if d.len() == 0 {
        0
    } else {
        digits_value(d.drop_last()) * 10 + digit_value(d.last())
    }
}

/// `n` written in decimal, as `Display` writes an unsigned integer.
pub open spec fn decimal(n: nat) -> Seq<char>
    decreases n,
{
    if n < 10 {
        seq![digit_chars()[n as int]]
    } else {
        decimal(n / 10) + seq![digit_chars()[(n % 10) as int]]
    }
}

/// The decimal digits of `n`.
pub fn decimal_chars(n: u64) -> (r: Vec<char>)
    ensures
        r@ == decimal(n as nat),
    decreases n,
{
    let digits = ['0', '1', '2', '3', '4', '5', '6', '7', '8', '9'];
    assert(digits@ == digit_chars());
    if n < 10 {
        let mut v: Vec<char> = Vec::new();
        v.push(digits[n as usize]);
        v
    } else {
        let mut v = decimal_chars(n / 10);
        v.push(digits[(n % 10) as usize]);
        v
    }
}

/// How many bytes `c` takes in UTF-8.
pub open spec fn utf8_width(c: char) -> int {
    let u = c as u32;
    if u < 0x80 {
        1
    } else if u < 0x800 {
        2
    } else if u < 0x10000 {
        3
    } else {
        4
    }
}

/// How many bytes `s` takes in UTF-8, as `str::len` counts.
pub open spec fn utf8_len(s: Seq<char>) -> int
    decreases s.len(),
{
    if s.len() == 0 {
        0
    } else {
        utf8_len(s.drop_last()) + utf8_width(s.last())
    }
}

pub proof fn lemma_utf8_len_nonneg(s: Seq<char>)
    ensures
        utf8_len(s) >= 0,
    decreases s.len(),
{
    if s.len() > 0 {
        lemma_utf8_len_nonneg(s.drop_last());
    }
}

/// How many bytes `s` takes in UTF-8, capped at `u64::MAX`.
pub fn utf8_size(s: &str) -> (r: u64)
    ensures
        r == if utf8_len(s@) > u64::MAX { u64::MAX } else { utf8_len(s@) as u64 },
{
    let v = chars_of(s);
    let mut n: u64 = 0;
    let mut i: usize = 0;
    assert(v@.take(0) =~= Seq::<char>::empty());
    while i < v.len()
        invariant
            i <= v.len(),
            v@ == s@,
            n == if utf8_len(v@.take(i as int)) > u64::MAX { u64::MAX } else { utf8_len(v@.take(i as int)) as u64 },
        decreases v.len() - i,
    {
        assert(v@.take(i + 1).drop_last() =~= v@.take(i as int));
        assert(v@.take(i + 1).last() == v@[i as int]);
        proof {
            lemma_utf8_len_nonneg(v@.take(i as int));
        }
        n = n.saturating_add(char_width(v[i]) as u64);
        i += 1;
    }
    assert(v@.take(v.len() as int) =~= v@);
    n
}

/// The UTF-8 width of one character.
pub fn char_width(c: char) -> (r: usize)
    ensures
        r == utf8_width(c),
{
    let u = c as u32;
    if u < 0x80 {
        1
    } else if u < 0x800 {
        2
    } else if u < 0x10000 {
        3
    } else {
        4
    }
}

} // verus!
