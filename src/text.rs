//! Character-sequence helpers shared by the scanners and the normalizer.
use vstd::prelude::*;

verus! {

broadcast use vstd::string::axiom_spec_iter;

/// `p` occurs in `t` starting at index `i`.
pub open spec fn matches_at(t: Seq<char>, p: Seq<char>, i: int) -> bool {
    0 <= i && i + p.len() <= t.len() && t.subrange(i, i + p.len()) == p
}

/// `p` occurs somewhere in `t`.
pub open spec fn contains(t: Seq<char>, p: Seq<char>) -> bool {
    exists|i: int| matches_at(t, p, i)
}

/// `t` ends with `p`.
pub open spec fn ends_with(t: Seq<char>, p: Seq<char>) -> bool {
    p.len() <= t.len() && t.subrange(t.len() - p.len(), t.len() as int) == p
}

/// The first index at or after `from` where `p` occurs in `t`.
pub open spec fn find_from(t: Seq<char>, p: Seq<char>, from: int) -> Option<int>
    decreases t.len() + 1 - from,
{
    if from < 0 || from + p.len() > t.len() {
        None
    } else if matches_at(t, p, from) {
        Some(from)
    } else {
        find_from(t, p, from + 1)
    }
}

/// What `find_from` returns: the least matching index at or after `from`.
pub proof fn lemma_find_from(t: Seq<char>, p: Seq<char>, from: int)
    requires
        0 <= from,
    ensures
        match find_from(t, p, from) {
            Some(i) => from <= i && matches_at(t, p, i) && forall|j: int|
                from <= j < i ==> !matches_at(t, p, j),
            None => forall|j: int| from <= j ==> !matches_at(t, p, j),
        },
    decreases t.len() + 1 - from,
{
    if from + p.len() > t.len() {
    } else if matches_at(t, p, from) {
    } else {
        lemma_find_from(t, p, from + 1);
    }
}

/// The characters of a string slice.
pub fn chars_of(s: &str) -> (r: Vec<char>)
    ensures
        r@ == s@,
{
    let mut r: Vec<char> = Vec::new();
    for c in it: s.chars()
        invariant
            it.seq() == s@,
            r@ == it.seq().take(it.index() as int),
    {
        r.push(c);
    }
    assert(r@ =~= s@);
    r
}

/// The string made of the given characters.
///
/// Relies on `String: FromIterator<&char>`: it appends the characters in order.
#[verifier::external_body]
pub(crate) fn string_of(v: &[char]) -> (r: String)
    ensures
        r@ == v@,
{
    v.iter().collect()
}

/// Whether `a` and `b` hold the same characters.
pub fn same_chars(a: &[char], b: &[char]) -> (r: bool)
    ensures
        r == (a@ == b@),
{
    if a.len() != b.len() {
        return false;
    }
    let mut i: usize = 0;
    while i < a.len()
        invariant
            a@.len() == b@.len(),
            i <= a@.len(),
            forall|j: int| 0 <= j < i ==> a@[j] == b@[j],
        decreases a@.len() - i,
    {
        if a[i] != b[i] {
            return false;
        }
        i = i + 1;
    }
    assert(a@ =~= b@);
    true
}

/// Whether `p` occurs in `t` at index `i`.
pub fn matches_at_exec(t: &[char], p: &[char], i: usize) -> (r: bool)
    ensures
        r == matches_at(t@, p@, i as int),
{
    if i > t.len() || p.len() > t.len() - i {
        return false;
    }
    let tl = t.len();
    let mut k: usize = 0;
    while k < p.len()
        invariant
            tl == t@.len(),
            i + p@.len() <= tl,
            k <= p@.len(),
            forall|j: int| 0 <= j < k ==> t@[i + j] == p@[j],
        decreases p@.len() - k,
    {
        if t[i + k] != p[k] {
            assert(t@.subrange(i as int, i + p@.len())[k as int] != p@[k as int]);
            return false;
        }
        k = k + 1;
    }
    assert(t@.subrange(i as int, i + p@.len()) =~= p@);
    true
}

/// The first index at or after `from` where `p` occurs in `t`.
pub fn find_from_exec(t: &[char], p: &[char], from: usize) -> (r: Option<usize>)
    ensures
        r == match find_from(t@, p@, from as int) {
            Some(i) => Some(i as usize),
            None => None::<usize>,
        },
        match r {
            Some(i) => from <= i && i + p@.len() <= t@.len() && matches_at(t@, p@, i as int)
                && find_from(t@, p@, from as int) == Some(i as int),
            None => find_from(t@, p@, from as int) == None::<int>,
        },
{
    proof {
        lemma_find_from(t@, p@, from as int);
    }
    if from > t.len() {
        return None;
    }
    let mut i: usize = from;
    while p.len() <= t.len() && i <= t.len() - p.len()
        invariant
            from <= i <= t@.len(),
            find_from(t@, p@, from as int) == find_from(t@, p@, i as int),
        decreases t@.len() - i,
    {
        if matches_at_exec(t, p, i) {
            return Some(i);
        }
        if i == t.len() {
            assert(find_from(t@, p@, i + 1) == None::<int>);
            return None;
        }
        i = i + 1;
    }
    None
}

/// Whether `p` occurs anywhere in `t`.
pub fn contains_exec(t: &[char], p: &[char]) -> (r: bool)
    ensures
        r == contains(t@, p@),
{
    proof {
        lemma_find_from(t@, p@, 0);
    }
    match find_from_exec(t, p, 0) {
        Some(_) => true,
        None => {
            assert forall|i: int| !matches_at(t@, p@, i) by {
                if 0 <= i {
                }
            }
            false
        },
    }
}

/// Whether `t` ends with `p`.
pub fn ends_with_exec(t: &[char], p: &[char]) -> (r: bool)
    ensures
        r == ends_with(t@, p@),
{
    if p.len() > t.len() {
        return false;
    }
    let r = matches_at_exec(t, p, t.len() - p.len());
    r
}

/// The characters of `t` from `a` up to, not including, `b`.
pub fn sub_chars(t: &[char], a: usize, b: usize) -> (r: Vec<char>)
    requires
        a <= b <= t@.len(),
    ensures
        r@ == t@.subrange(a as int, b as int),
{
    let mut r: Vec<char> = Vec::new();
    let mut i = a;
    while i < b
        invariant
            a <= i <= b <= t@.len(),
            r@ == t@.subrange(a as int, i as int),
        decreases b - i,
    {
        r.push(t[i]);
        i = i + 1;
        assert(r@ =~= t@.subrange(a as int, i as int));
    }
    r
}

/// A character with the Unicode `White_Space` property, the set that `char::is_whitespace`
/// and `str::trim` use.
pub open spec fn is_white(c: char) -> bool {
    let n = c as int;
    (9 <= n <= 13) || n == 32 || n == 0x85 || n == 0xA0 || n == 0x1680 || (0x2000 <= n <= 0x200A)
        || n == 0x2028 || n == 0x2029 || n == 0x202F || n == 0x205F || n == 0x3000
}

/// Whether `c` is white space.
pub fn is_white_exec(c: char) -> (r: bool)
    ensures
        r == is_white(c),
{
    ('\t' <= c && c <= '\r') || c == ' ' || c == '\u{85}' || c == '\u{A0}' || c == '\u{1680}'
        || ('\u{2000}' <= c && c <= '\u{200A}') || c == '\u{2028}' || c == '\u{2029}' || c
        == '\u{202F}' || c == '\u{205F}' || c == '\u{3000}'
}

/// `s` without its leading white space.
pub open spec fn trim_start(s: Seq<char>) -> Seq<char>
    decreases s.len(),
{
    if s.len() > 0 && is_white(s[0]) {
        trim_start(s.drop_first())
    } else {
        s
    }
}

/// `s` without its trailing white space.
pub open spec fn trim_end(s: Seq<char>) -> Seq<char>
    decreases s.len(),
{
    if s.len() > 0 && is_white(s.last()) {
        trim_end(s.drop_last())
    } else {
        s
    }
}

/// `s` without leading and trailing white space, as `str::trim` gives it.
pub open spec fn trim(s: Seq<char>) -> Seq<char> {
    trim_end(trim_start(s))
}

/// `s` without leading and trailing white space.
pub fn trim_exec(s: &[char]) -> (r: Vec<char>)
    ensures
        r@ == trim(s@),
{
    let n = s.len();
    let mut i: usize = 0;
    assert(s@.skip(0) =~= s@);
    while i < n && is_white_exec(s[i])
        invariant
            n == s@.len(),
            i <= n,
            trim_start(s@) == trim_start(s@.skip(i as int)),
        decreases n - i,
    {
        assert(s@.skip(i as int).drop_first() =~= s@.skip(i + 1));
        i = i + 1;
    }
    let mut j: usize = n;
    assert(s@.skip(i as int).take((j - i) as int) =~= s@.skip(i as int));
    while j > i && is_white_exec(s[j - 1])
        invariant
            n == s@.len(),
            i <= j <= n,
            trim_start(s@) == s@.skip(i as int),
            trim(s@) == trim_end(s@.subrange(i as int, j as int)),
        decreases j,
    {
        assert(s@.subrange(i as int, j as int).drop_last() =~= s@.subrange(i as int, j - 1));
        j = j - 1;
    }
    sub_chars(s, i, j)
}

} // verus!
