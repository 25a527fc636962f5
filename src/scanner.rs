//! The URL pattern scanner: finds asset URLs that start with known prefixes in free text.
use vstd::prelude::*;
use crate::candidates::{strictly_sorted, texts, CandidateSet};
use crate::quality::pieces;
use crate::text::{
    chars_of, contains, contains_exec, ends_with, ends_with_exec, find_from, find_from_exec,
    lemma_find_from, matches_at, sub_chars, trim, trim_exec,
};

verus! {

/// A character that ends a URL embedded in markup or script text.
pub open spec fn is_delimiter(c: char) -> bool {
    c == '"' || c == '\'' || c == ' ' || c == ')' || c == '}' || c == '\\'
}

/// The first delimiter at or after `from`.
pub open spec fn first_delimiter(t: Seq<char>, from: int) -> Option<int>
    decreases t.len() - from,
{
    if from < 0 || from >= t.len() {
        None
    } else if is_delimiter(t[from]) {
        Some(from)
    } else {
        first_delimiter(t, from + 1)
    }
}

/// The host fragments of asset URLs.
pub open spec fn is_asset_host(u: Seq<char>) -> bool {
    contains(u, "pinimg.com"@) || contains(u, "pin.it"@)
}

/// The file extensions of images.
pub open spec fn has_image_extension(u: Seq<char>) -> bool {
    ends_with(u, ".jpg"@) || ends_with(u, ".jpeg"@) || ends_with(u, ".png"@) || ends_with(
        u,
        ".webp"@,
    ) || ends_with(u, ".gif"@)
}

/// A path segment that names a resolution tier, slashes on both sides.
pub open spec fn has_tier_path(u: Seq<char>) -> bool {
    contains(u, "/originals/"@) || contains(u, "/736x/"@) || contains(u, "/474x/"@) || contains(
        u,
        "/236x/"@,
    )
}

/// Trimmed text that names an asset host, and ends in an image extension or holds a tier path.
pub open spec fn is_asset_text(u: Seq<char>) -> bool {
    is_asset_host(u) && (has_image_extension(u) || has_tier_path(u))
}

/// `u` is taken for an image URL: without surrounding white space, it names an asset host
/// and ends in an image extension or holds a tier path.
pub open spec fn is_asset_url(u: Seq<char>) -> bool {
    is_asset_text(trim(u))
}

/// What an occurrence of `p` at `i` contributes: the text from `i` up to the first
/// delimiter after the prefix, when that text is an asset URL.
pub open spec fn capture(t: Seq<char>, p: Seq<char>, i: int) -> Set<Seq<char>> {
    match first_delimiter(t, i + p.len()) {
        Some(e) => if is_asset_url(t.subrange(i, e)) {
            set![t.subrange(i, e)]
        } else {
            Set::empty()
        },
        None => Set::empty(),
    }
}

/// The URLs found for prefix `p` from position `from` on: after each occurrence the search
/// resumes at the end of the prefix.
pub open spec fn scan_prefix(t: Seq<char>, p: Seq<char>, from: int) -> Set<Seq<char>>
    decreases t.len() + 1 - from,
{
    if p.len() == 0 || from < 0 || from + p.len() > t.len() {
        Set::empty()
    } else if matches_at(t, p, from) {
        capture(t, p, from).union(scan_prefix(t, p, from + p.len()))
    } else {
        scan_prefix(t, p, from + 1)
    }
}

/// The URLs found in `t` for any of the prefixes `ps`.
pub open spec fn scan_all(t: Seq<char>, ps: Seq<Seq<char>>) -> Set<Seq<char>>
    decreases ps.len(),
{
    if ps.len() == 0 {
        Set::empty()
    } else {
        scan_all(t, ps.drop_last()).union(scan_prefix(t, ps.last(), 0))
    }
}

proof fn lemma_first_delimiter(t: Seq<char>, from: int)
    requires
        0 <= from,
    ensures
        match first_delimiter(t, from) {
            Some(e) => from <= e < t.len() && is_delimiter(t[e]) && forall|j: int|
                from <= j < e ==> !is_delimiter(#[trigger] t[j]),
            None => forall|j: int| from <= j < t.len() ==> !is_delimiter(#[trigger] t[j]),
        },
    decreases t.len() - from,
{
    if 0 <= from < t.len() && !is_delimiter(t[from]) {
        lemma_first_delimiter(t, from + 1);
    }
}

proof fn lemma_scan_skip(t: Seq<char>, p: Seq<char>, from: int, i: int)
    requires
        0 <= from <= i,
        p.len() > 0,
        forall|j: int| from <= j < i ==> !matches_at(t, p, j),
    ensures
        scan_prefix(t, p, from) == scan_prefix(t, p, i),
    decreases i - from,
{
    if from < i {
        lemma_scan_skip(t, p, from + 1, i);
    }
}

proof fn lemma_scan_none(t: Seq<char>, p: Seq<char>, from: int)
    requires
        0 <= from,
        p.len() > 0,
        forall|j: int| from <= j ==> !matches_at(t, p, j),
    ensures
        scan_prefix(t, p, from) == Set::<Seq<char>>::empty(),
    decreases t.len() + 1 - from,
{
    if from + p.len() <= t.len() {
        lemma_scan_none(t, p, from + 1);
    }
}

/// The first delimiter at or after `from`.
pub fn first_delimiter_exec(t: &[char], from: usize) -> (r: Option<usize>)
    ensures
        r == match first_delimiter(t@, from as int) {
            Some(e) => Some(e as usize),
            None => None::<usize>,
        },
{
    let mut i = from;
    while i < t.len()
        invariant
            from <= i,
            first_delimiter(t@, from as int) == first_delimiter(t@, i as int),
        decreases t@.len() - i,
    {
        let c = t[i];
        if c == '"' || c == '\'' || c == ' ' || c == ')' || c == '}' || c == '\\' {
            return Some(i);
        }
        i = i + 1;
    }
    None
}

/// Whether `u` is taken for an image URL.
pub fn is_asset_url_exec(u: &[char]) -> (r: bool)
    ensures
        r == is_asset_url(u@),
{
    let t = trim_exec(u);
    is_asset_text_exec(t.as_slice())
}

/// Whether trimmed text `u` names an asset host and has an image extension or a tier path.
fn is_asset_text_exec(u: &[char]) -> (r: bool)
    ensures
        r == is_asset_text(u@),
{
    let host = contains_exec(u, chars_of("pinimg.com").as_slice()) || contains_exec(
        u,
        chars_of("pin.it").as_slice(),
    );
    if !host {
        return false;
    }
    ends_with_exec(u, chars_of(".jpg").as_slice()) || ends_with_exec(
        u,
        chars_of(".jpeg").as_slice(),
    ) || ends_with_exec(u, chars_of(".png").as_slice()) || ends_with_exec(
        u,
        chars_of(".webp").as_slice(),
    ) || ends_with_exec(u, chars_of(".gif").as_slice()) || contains_exec(
        u,
        chars_of("/originals/").as_slice(),
    ) || contains_exec(u, chars_of("/736x/").as_slice()) || contains_exec(
        u,
        chars_of("/474x/").as_slice(),
    ) || contains_exec(u, chars_of("/236x/").as_slice())
}

/// Whether `url` is taken for an image URL: without surrounding white space, it names an
/// asset host and ends in an image extension or holds a tier path segment.
pub fn is_pinterest_image_url(url: &str) -> (r: bool)
    ensures
        r == is_asset_url(url@),
{
    is_asset_url_exec(chars_of(url).as_slice())
}

/// Adds to `set` the URLs found for prefix `p`.
pub fn scan_prefix_into(t: &[char], p: &[char], set: &mut CandidateSet)
    requires
        old(set).wf(),
    ensures
        final(set).wf(),
        final(set).members() == old(set).members().union(scan_prefix(t@, p@, 0)),
{
    if p.len() == 0 {
        assert(set.members().union(Set::empty()) =~= set.members());
        return;
    }
    let ghost start = set.members();
    let ghost mut found: Set<Seq<char>> = Set::empty();
    let mut pos: usize = 0;
    while pos <= t.len()
        invariant
            p@.len() > 0,
            set.wf(),
            start == old(set).members(),
            set.members() == start.union(found),
            scan_prefix(t@, p@, 0) == found.union(scan_prefix(t@, p@, pos as int)),
        decreases t@.len() + 1 - pos,
    {
        proof {
            lemma_find_from(t@, p@, pos as int);
        }
        match find_from_exec(t, p, pos) {
            None => {
                proof {
                    lemma_scan_none(t@, p@, pos as int);
                }
                assert(scan_prefix(t@, p@, pos as int) == Set::<Seq<char>>::empty());
                assert(found.union(Set::empty()) =~= found);
                assert(start.union(found) =~= start.union(scan_prefix(t@, p@, 0)));
                return;
            },
            Some(i) => {
                proof {
                    lemma_scan_skip(t@, p@, pos as int, i as int);
                }
                let end = i + p.len();
                proof {
                    lemma_first_delimiter(t@, end as int);
                }
                let ghost before = set.members();
                if let Some(e) = first_delimiter_exec(t, end) {
                    let u = sub_chars(t, i, e);
                    if is_asset_url_exec(u.as_slice()) {
                        set.insert(u.as_slice());
                        assert(capture(t@, p@, i as int) == set![u@]);
                        assert(set.members() =~= before.union(capture(t@, p@, i as int)));
                    } else {
                        assert(capture(t@, p@, i as int) == Set::<Seq<char>>::empty());
                        assert(set.members() =~= before.union(capture(t@, p@, i as int)));
                    }
                } else {
                    assert(capture(t@, p@, i as int) == Set::<Seq<char>>::empty());
                    assert(set.members() =~= before.union(capture(t@, p@, i as int)));
                }
                proof {
                    found = found.union(capture(t@, p@, i as int));
                    assert(set.members() =~= start.union(found));
                    assert(scan_prefix(t@, p@, 0) =~= found.union(scan_prefix(t@, p@, end as int)));
                }
                pos = end;
            },
        }
    }
    assert(start.union(found) =~= start.union(scan_prefix(t@, p@, 0))) by {
        if pos > t.len() {
            assert(scan_prefix(t@, p@, pos as int) == Set::<Seq<char>>::empty());
        }
        assert(found.union(Set::<Seq<char>>::empty()) =~= found);
    }
}

/// Adds to `set` the URLs found for every prefix of `ps`.
pub fn scan_all_into(t: &[char], ps: &Vec<Vec<char>>, set: &mut CandidateSet)
    requires
        old(set).wf(),
    ensures
        final(set).wf(),
        final(set).members() == old(set).members().union(scan_all(t@, pieces(ps@))),
{
    let mut k: usize = 0;
    assert(pieces(ps@).take(0) =~= Seq::<Seq<char>>::empty());
    assert(set.members().union(Set::empty()) =~= set.members());
    while k < ps.len()
        invariant
            k <= ps@.len(),
            set.wf(),
            set.members() == old(set).members().union(scan_all(t@, pieces(ps@).take(k as int))),
        decreases ps@.len() - k,
    {
        scan_prefix_into(t, ps[k].as_slice(), set);
        assert(pieces(ps@).take(k + 1).drop_last() =~= pieces(ps@).take(k as int));
        assert(pieces(ps@).take(k + 1).last() == ps@[k as int]@);
        k = k + 1;
        assert(set.members() =~= old(set).members().union(scan_all(t@, pieces(ps@).take(k as int))));
    }
    assert(pieces(ps@).take(k as int) =~= pieces(ps@));
}

/// The characters of each string.
pub fn chars_of_all(v: &Vec<String>) -> (r: Vec<Vec<char>>)
    ensures
        pieces(r@) == texts(v@),
{
    let mut r: Vec<Vec<char>> = Vec::new();
    let mut k: usize = 0;
    while k < v.len()
        invariant
            k <= v@.len(),
            pieces(r@) == texts(v@).take(k as int),
        decreases v@.len() - k,
    {
        let ghost before = pieces(r@);
        let cs = chars_of(v[k].as_str());
        assert(cs@ == v@[k as int]@);
        r.push(cs);
        assert(pieces(r@) =~= before.push(v@[k as int]@));
        assert(texts(v@).take(k + 1) =~= texts(v@).take(k as int).push(v@[k as int]@));
        k = k + 1;
    }
    assert(texts(v@).take(k as int) =~= texts(v@));
    r
}

/// The asset URLs in `text` that start with one of `prefixes`, each once, in lexicographic
/// order. For each prefix, the search resumes after the end of every occurrence; an
/// occurrence is cut at the first delimiter after the prefix and kept when it is an asset URL.
pub fn scan(text: &str, prefixes: &Vec<String>) -> (r: Vec<String>)
    ensures
        strictly_sorted(texts(r@)),
        texts(r@).to_set() == scan_all(text@, texts(prefixes@)),
{
    let t = chars_of(text);
    let ps = chars_of_all(prefixes);
    let mut set = CandidateSet::new();
    scan_all_into(t.as_slice(), &ps, &mut set);
    assert(set.members() =~= scan_all(text@, texts(prefixes@)));
    set.to_strings()
}

proof fn lemma_scan_prefix_sound(t: Seq<char>, p: Seq<char>, from: int, u: Seq<char>)
    requires
        scan_prefix(t, p, from).contains(u),
    ensures
        exists|i: int, e: int|
            matches_at(t, p, i) && first_delimiter(t, i + p.len()) == Some(e) && u == t.subrange(i, e)
                && is_asset_url(u),
    decreases t.len() + 1 - from,
{
    if p.len() == 0 || from < 0 || from + p.len() > t.len() {
    } else if matches_at(t, p, from) {
        if capture(t, p, from).contains(u) {
            let e = first_delimiter(t, from + p.len())->Some_0;
            assert(matches_at(t, p, from) && first_delimiter(t, from + p.len()) == Some(e) && u
                == t.subrange(from, e) && is_asset_url(u));
        } else {
            lemma_scan_prefix_sound(t, p, from + p.len(), u);
        }
    } else {
        lemma_scan_prefix_sound(t, p, from + 1, u);
    }
}

/// Every URL that the scanner finds starts with one of the prefixes, holds no delimiter,
/// and is an asset URL, provided that no prefix holds a delimiter.
pub proof fn lemma_scan_sound(t: Seq<char>, ps: Seq<Seq<char>>, u: Seq<char>)
    requires
        scan_all(t, ps).contains(u),
        forall|k: int, j: int|
            0 <= k < ps.len() && 0 <= j < ps[k].len() ==> !is_delimiter(#[trigger] ps[k][j]),
    ensures
        exists|k: int|
            0 <= k < ps.len() && ps[k].len() <= u.len() && #[trigger] u.subrange(0, ps[k].len() as int)
                == ps[k],
        forall|j: int| 0 <= j < u.len() ==> !is_delimiter(#[trigger] u[j]),
        is_asset_url(u),
    decreases ps.len(),
{
    if ps.len() > 0 {
        let init = ps.drop_last();
        if scan_all(t, init).contains(u) {
            lemma_scan_sound(t, init, u);
            let k = choose|k: int|
                0 <= k < init.len() && init[k].len() <= u.len() && #[trigger] u.subrange(
                    0,
                    init[k].len() as int,
                ) == init[k];
            assert(ps[k] == init[k]);
        } else {
            let p = ps.last();
            lemma_scan_prefix_sound(t, p, 0, u);
            let (i, e) = choose|i: int, e: int|
                matches_at(t, p, i) && first_delimiter(t, i + p.len()) == Some(e) && u
                    == t.subrange(i, e) && is_asset_url(u);
            lemma_first_delimiter(t, i + p.len());
            assert(u.subrange(0, p.len() as int) =~= p);
            assert forall|j: int| 0 <= j < u.len() implies !is_delimiter(#[trigger] u[j]) by {
                assert(u[j] == t[i + j]);
                if j < p.len() {
                    assert(t[i + j] == p[j]);
                    assert(!is_delimiter(ps[ps.len() - 1][j]));
                }
            }
            assert(ps[ps.len() - 1] == p);
        }
    }
}

} // verus!
