//! The structured extractors: independent strategies that each find candidate asset URLs
//! in one fetched page.
use vstd::prelude::*;
use crate::candidates::{lemma_sorted_unique, strictly_sorted, CandidateSet};
use crate::dom::{container_into, container_urls, image_tag_into, image_tag_urls};
use crate::quality::{normalize_chars, normalized, QualityTier};
use crate::quality::pieces;
use crate::scanner::{is_asset_url, is_asset_url_exec, scan_all, scan_all_into};
use crate::text::{chars_of, find_from, find_from_exec, lemma_find_from, matches_at, sub_chars};

verus! {

/// The prefixes that the scanner looks for in script and API text.
pub open spec fn text_prefixes() -> Seq<Seq<char>> {
    seq![
        "https://i.pinimg.com/originals/"@,
        "https://i.pinimg.com/736x/"@,
        "https://i.pinimg.com/474x/"@,
        "https://i.pinimg.com/236x/"@,
        "https://www.pinimg.com/"@,
        "https://pin.it/"@,
    ]
}

/// The prefixes of tiered asset URLs, looked for in raw page text.
pub open spec fn tier_prefixes() -> Seq<Seq<char>> {
    text_prefixes().take(4)
}

/// The prefixes that the scanner looks for in script and API text.
pub fn text_prefixes_exec() -> (r: Vec<Vec<char>>)
    ensures
        pieces(r@) == text_prefixes(),
{
    let r = vec![
        chars_of("https://i.pinimg.com/originals/"),
        chars_of("https://i.pinimg.com/736x/"),
        chars_of("https://i.pinimg.com/474x/"),
        chars_of("https://i.pinimg.com/236x/"),
        chars_of("https://www.pinimg.com/"),
        chars_of("https://pin.it/"),
    ];
    assert(pieces(r@) =~= text_prefixes());
    r
}

/// The prefixes of tiered asset URLs.
pub fn tier_prefixes_exec() -> (r: Vec<Vec<char>>)
    ensures
        pieces(r@) == tier_prefixes(),
{
    let r = vec![
        chars_of("https://i.pinimg.com/originals/"),
        chars_of("https://i.pinimg.com/736x/"),
        chars_of("https://i.pinimg.com/474x/"),
        chars_of("https://i.pinimg.com/236x/"),
    ];
    assert(pieces(r@) =~= tier_prefixes());
    r
}

/// The key that introduces the page's embedded application state.
pub open spec fn state_marker() -> Seq<char> {
    "\"initial_state\""@
}

/// The index of the `}` that closes the object open at depth `depth` when `i` is reached,
/// counting braces only.
pub open spec fn brace_end(t: Seq<char>, i: int, depth: nat) -> Option<int>
    decreases t.len() - i,
{
    if i < 0 || i >= t.len() {
        None
    } else if t[i] == '{' {
        brace_end(t, i + 1, depth + 1)
    } else if t[i] == '}' {
        if depth <= 1 {
            Some(i)
        } else {
            brace_end(t, i + 1, (depth - 1) as nat)
        }
    } else {
        brace_end(t, i + 1, depth)
    }
}

/// The balanced `{...}` region that starts at the first brace after the state marker,
/// as start and end (exclusive).
pub open spec fn state_region(t: Seq<char>) -> Option<(int, int)> {
    match find_from(t, state_marker(), 0) {
        None => None,
        Some(m) => match find_from(t, seq!['{'], m) {
            None => None,
            Some(s) => match brace_end(t, s + 1, 1) {
                None => None,
                Some(e) => Some((s, e + 1)),
            },
        },
    }
}

/// Strategy 1: the scanner run over the embedded application state.
pub open spec fn inline_state_urls(t: Seq<char>) -> Set<Seq<char>> {
    match state_region(t) {
        None => Set::empty(),
        Some((s, e)) => scan_all(t.subrange(s, e), text_prefixes()),
    }
}

proof fn lemma_brace_end(t: Seq<char>, i: int, depth: nat)
    requires
        0 <= i,
    ensures
        brace_end(t, i, depth) matches Some(e) ==> i <= e < t.len(),
    decreases t.len() - i,
{
    if i < t.len() {
        if t[i] == '{' {
            lemma_brace_end(t, i + 1, depth + 1);
        } else if t[i] == '}' {
            if depth > 1 {
                lemma_brace_end(t, i + 1, (depth - 1) as nat);
            }
        } else {
            lemma_brace_end(t, i + 1, depth);
        }
    }
}

/// The end of the balanced region whose opening brace is just before `start`.
fn brace_end_exec(t: &[char], start: usize) -> (r: Option<usize>)
    requires
        1 <= start,
    ensures
        r == match brace_end(t@, start as int, 1) {
            Some(e) => Some(e as usize),
            None => None::<usize>,
        },
{
    let mut depth: usize = 1;
    let mut i = start;
    while i < t.len()
        invariant
            1 <= depth <= i,
            start <= i,
            i <= t@.len() || i == start,
            brace_end(t@, start as int, 1) == brace_end(t@, i as int, depth as nat),
        decreases t@.len() - i,
    {
        let c = t[i];
        if c == '{' {
            depth = depth + 1;
        } else if c == '}' {
            if depth <= 1 {
                return Some(i);
            }
            depth = depth - 1;
        }
        i = i + 1;
    }
    None
}

/// Strategy 1: asset URLs in the embedded application state.
pub fn inline_state_into(t: &[char], set: &mut CandidateSet)
    requires
        old(set).wf(),
    ensures
        final(set).wf(),
        final(set).members() == old(set).members().union(inline_state_urls(t@)),
{
    let n = t.len();
    let marker = chars_of("\"initial_state\"");
    proof {
        lemma_find_from(t@, state_marker(), 0);
    }
    let m = match find_from_exec(t, marker.as_slice(), 0) {
        Some(m) => m,
        None => {
            assert(inline_state_urls(t@) =~= Set::empty());
            assert(set.members().union(Set::empty()) =~= set.members());
            return;
        },
    };
    proof {
        lemma_find_from(t@, seq!['{'], m as int);
    }
    let brace = vec!['{'];
    assert(brace@ == seq!['{']);
    let s = match find_from_exec(t, brace.as_slice(), m) {
        Some(s) => s,
        None => {
            assert(inline_state_urls(t@) =~= Set::empty());
            assert(set.members().union(Set::empty()) =~= set.members());
            return;
        },
    };
    proof {
        lemma_brace_end(t@, s + 1, 1);
    }
    let e = match brace_end_exec(t, s + 1) {
        Some(e) => e,
        None => {
            assert(inline_state_urls(t@) =~= Set::empty());
            assert(set.members().union(Set::empty()) =~= set.members());
            return;
        },
    };
    assert(s + 1 <= e + 1 <= n);
    let region = sub_chars(t, s, e + 1);
    assert(state_region(t@) == Some((s as int, e + 1)));
    let prefixes = text_prefixes_exec();
    scan_all_into(region.as_slice(), &prefixes, set);
}

/// The key that introduces an object describing the original-resolution image.
pub open spec fn original_marker() -> Seq<char> {
    "\"original\""@
}

/// The key whose value is the image URL.
pub open spec fn url_key() -> Seq<char> {
    "\"url\""@
}

/// How far after an `"original"` key the `"url"` key may end.
pub open spec fn key_window() -> int {
    100
}

/// How far after the `"url"` key the colon may stand.
pub open spec fn colon_window() -> int {
    50
}

/// Whitespace allowed between the colon and the opening quote.
pub open spec fn is_gap(c: char) -> bool {
    c == ' ' || c == '\n'
}

/// The first index at or after `i` that is not a gap.
pub open spec fn skip_gaps(t: Seq<char>, i: int) -> int
    decreases t.len() - i,
{
    if 0 <= i < t.len() && is_gap(t[i]) {
        skip_gaps(t, i + 1)
    } else {
        i
    }
}

/// The quoted value after the colon at `c`, as start and end (exclusive).
pub open spec fn quoted_after(t: Seq<char>, c: int) -> Option<(int, int)> {
    let q = skip_gaps(t, c + 1);
    if 0 <= q < t.len() && t[q] == '"' {
        match find_from(t, seq!['"'], q + 1) {
            Some(z) => Some((q + 1, z)),
            None => None,
        }
    } else {
        None
    }
}

/// What an `"original"` key at `m` contributes: the `"url"` value found within the windows,
/// when it is an asset URL.
pub open spec fn original_url_at(t: Seq<char>, m: int) -> Set<Seq<char>> {
    match find_from(t, url_key(), m) {
        Some(u) => if u + url_key().len() <= m + key_window() {
            match find_from(t, seq![':'], u) {
                Some(c) => if c < u + colon_window() {
                    match quoted_after(t, c) {
                        Some((a, b)) => if is_asset_url(t.subrange(a, b)) {
                            set![t.subrange(a, b)]
                        } else {
                            Set::empty()
                        },
                        None => Set::empty(),
                    }
                } else {
                    Set::empty()
                },
                None => Set::empty(),
            }
        } else {
            Set::empty()
        },
        None => Set::empty(),
    }
}

/// Strategy 2 from position `from` on: each `"original"` key, the search resuming after it.
pub open spec fn key_path_from(t: Seq<char>, from: int) -> Set<Seq<char>>
    decreases t.len() + 1 - from,
{
    if from < 0 || from + original_marker().len() > t.len() || original_marker().len() == 0 {
        Set::empty()
    } else if matches_at(t, original_marker(), from) {
        original_url_at(t, from).union(key_path_from(t, from + original_marker().len()))
    } else {
        key_path_from(t, from + 1)
    }
}

/// Strategy 2: URLs given as the `"url"` value of an `"original"` object.
pub open spec fn key_path_urls(t: Seq<char>) -> Set<Seq<char>> {
    key_path_from(t, 0)
}

proof fn lemma_key_path_skip(t: Seq<char>, from: int, i: int)
    requires
        0 <= from <= i,
        forall|j: int| from <= j < i ==> !matches_at(t, original_marker(), j),
    ensures
        key_path_from(t, from) == key_path_from(t, i),
    decreases i - from,
{
    if from < i {
        lemma_key_path_skip(t, from + 1, i);
    }
}

proof fn lemma_key_path_none(t: Seq<char>, from: int)
    requires
        0 <= from,
        forall|j: int| from <= j ==> !matches_at(t, original_marker(), j),
    ensures
        key_path_from(t, from) == Set::<Seq<char>>::empty(),
    decreases t.len() + 1 - from,
{
    if from + original_marker().len() <= t.len() {
        lemma_key_path_none(t, from + 1);
    }
}

proof fn lemma_skip_gaps(t: Seq<char>, i: int)
    ensures
        skip_gaps(t, i) >= i,
        0 <= i ==> skip_gaps(t, i) <= t.len() || skip_gaps(t, i) == i,
    decreases t.len() - i,
{
    if 0 <= i < t.len() && is_gap(t[i]) {
        lemma_skip_gaps(t, i + 1);
    }
}

/// The first index at or after `i` that is not a gap.
fn skip_gaps_exec(t: &[char], i: usize) -> (r: usize)
    ensures
        r as int == skip_gaps(t@, i as int),
{
    let mut k = i;
    while k < t.len() && (t[k] == ' ' || t[k] == '\n')
        invariant
            i <= k,
            k <= t@.len() || k == i,
            skip_gaps(t@, i as int) == skip_gaps(t@, k as int),
        decreases t@.len() - k,
    {
        k = k + 1;
    }
    k
}

/// Adds what an `"original"` key at `m` contributes.
fn original_url_into(t: &[char], m: usize, set: &mut CandidateSet)
    requires
        old(set).wf(),
        m <= t@.len(),
    ensures
        final(set).wf(),
        final(set).members() == old(set).members().union(original_url_at(t@, m as int)),
{
    proof {
        reveal_strlit("\"url\"");
    }
    let n = t.len();
    let key = chars_of("\"url\"");
    let u = match find_from_exec(t, key.as_slice(), m) {
        Some(u) => u,
        None => {
            assert(original_url_at(t@, m as int) =~= Set::empty());
            assert(set.members().union(Set::empty()) =~= set.members());
            return;
        },
    };
    if u - m > 95 {
        assert(original_url_at(t@, m as int) =~= Set::empty());
        assert(set.members().union(Set::empty()) =~= set.members());
        return;
    }
    proof {
        lemma_find_from(t@, seq![':'], u as int);
    }
    let colon = vec![':'];
    assert(colon@ == seq![':']);
    let c = match find_from_exec(t, colon.as_slice(), u) {
        Some(c) => c,
        None => {
            assert(original_url_at(t@, m as int) =~= Set::empty());
            assert(set.members().union(Set::empty()) =~= set.members());
            return;
        },
    };
    if c - u >= 50 {
        assert(original_url_at(t@, m as int) =~= Set::empty());
        assert(set.members().union(Set::empty()) =~= set.members());
        return;
    }
    assert(c < n);
    let q = skip_gaps_exec(t, c + 1);
    proof {
        lemma_skip_gaps(t@, c + 1);
    }
    if q >= t.len() || t[q] != '"' {
        assert(original_url_at(t@, m as int) =~= Set::empty());
        assert(set.members().union(Set::empty()) =~= set.members());
        return;
    }
    proof {
        lemma_find_from(t@, seq!['"'], q + 1);
    }
    let quote = vec!['"'];
    assert(quote@ == seq!['"']);
    let z = match find_from_exec(t, quote.as_slice(), q + 1) {
        Some(z) => z,
        None => {
            assert(original_url_at(t@, m as int) =~= Set::empty());
            assert(set.members().union(Set::empty()) =~= set.members());
            return;
        },
    };
    let value = sub_chars(t, q + 1, z);
    assert(quoted_after(t@, c as int) == Some((q + 1, z as int)));
    if is_asset_url_exec(value.as_slice()) {
        set.insert(value.as_slice());
        assert(original_url_at(t@, m as int) == set![value@]);
        assert(set.members() =~= old(set).members().union(original_url_at(t@, m as int)));
    } else {
        assert(original_url_at(t@, m as int) =~= Set::empty());
        assert(set.members().union(Set::empty()) =~= set.members());
    }
}

/// Strategy 2: URLs given as the `"url"` value of an `"original"` object.
pub fn key_path_into(t: &[char], set: &mut CandidateSet)
    requires
        old(set).wf(),
    ensures
        final(set).wf(),
        final(set).members() == old(set).members().union(key_path_urls(t@)),
{
    let marker = chars_of("\"original\"");
    let ghost start = set.members();
    let ghost mut found: Set<Seq<char>> = Set::empty();
    let mut pos: usize = 0;
    while pos <= t.len()
        invariant
            marker@ == original_marker(),
            set.wf(),
            start == old(set).members(),
            set.members() == start.union(found),
            key_path_urls(t@) == found.union(key_path_from(t@, pos as int)),
        decreases t@.len() + 1 - pos,
    {
        proof {
            lemma_find_from(t@, original_marker(), pos as int);
        }
        match find_from_exec(t, marker.as_slice(), pos) {
            None => {
                proof {
                    lemma_key_path_none(t@, pos as int);
                }
                assert(found.union(Set::empty()) =~= found);
                assert(start.union(found) =~= start.union(key_path_urls(t@)));
                return;
            },
            Some(m) => {
                proof {
                    lemma_key_path_skip(t@, pos as int, m as int);
                    reveal_strlit("\"original\"");
                }
                let ghost before = set.members();
                original_url_into(t, m, set);
                proof {
                    found = found.union(original_url_at(t@, m as int));
                    assert(set.members() =~= start.union(found));
                    assert(key_path_urls(t@) =~= found.union(key_path_from(t@, m + 10)));
                }
                pos = m + marker.len();
            },
        }
    }
    assert(key_path_from(t@, pos as int) == Set::<Seq<char>>::empty());
    assert(start.union(found) =~= start.union(key_path_urls(t@))) by {
        assert(found.union(Set::<Seq<char>>::empty()) =~= found);
    }
}

/// One of the extraction strategies, in priority order.
#[derive(Clone, Copy, Debug, PartialEq, Eq, Structural)]
pub enum Strategy {
    InlineState,
    KeyPath,
    Containers,
    ImageTags,
}

/// What a strategy finds in a page body.
pub open spec fn strategy_urls(s: Strategy, body: Seq<char>) -> Set<Seq<char>> {
    match s {
        Strategy::InlineState => inline_state_urls(body),
        Strategy::KeyPath => key_path_urls(body),
        Strategy::Containers => container_urls(body),
        Strategy::ImageTags => image_tag_urls(body),
    }
}

/// What running `ss` in order yields: the first non-empty result, or, with `union_all`,
/// the union of all results.
pub open spec fn resolved(body: Seq<char>, ss: Seq<Strategy>, union_all: bool) -> Set<Seq<char>>
    decreases ss.len(),
{
    if ss.len() == 0 {
        Set::empty()
    } else if !union_all && strategy_urls(ss[0], body) != Set::<Seq<char>>::empty() {
        strategy_urls(ss[0], body)
    } else {
        strategy_urls(ss[0], body).union(resolved(body, ss.drop_first(), union_all))
    }
}

/// The strategies that running `ss` in order invokes: all of them with `union_all`,
/// otherwise those up to and including the first that finds something.
pub open spec fn invoked(body: Seq<char>, ss: Seq<Strategy>, union_all: bool) -> Seq<Strategy>
    decreases ss.len(),
{
    if ss.len() == 0 {
        Seq::empty()
    } else if !union_all && strategy_urls(ss[0], body) != Set::<Seq<char>>::empty() {
        seq![ss[0]]
    } else {
        seq![ss[0]] + invoked(body, ss.drop_first(), union_all)
    }
}

/// On a page that is not a search page, a first strategy that finds something is the only
/// one invoked, and its result is the result.
pub proof fn lemma_first_success_stops(body: Seq<char>, ss: Seq<Strategy>)
    requires
        ss.len() >= 1,
        strategy_urls(ss[0], body) != Set::<Seq<char>>::empty(),
    ensures
        invoked(body, ss, false) == seq![ss[0]],
        resolved(body, ss, false) == strategy_urls(ss[0], body),
{
}

/// Two runs of the same strategies on the same body yield the same sorted list.
pub proof fn lemma_extraction_deterministic(
    body: Seq<char>,
    ss: Seq<Strategy>,
    union_all: bool,
    a: Seq<Seq<char>>,
    b: Seq<Seq<char>>,
)
    requires
        strictly_sorted(a),
        strictly_sorted(b),
        a.to_set() == resolved(body, ss, union_all),
        b.to_set() == resolved(body, ss, union_all),
    ensures
        a == b,
{
    lemma_sorted_unique(a, b);
}

/// Runs one strategy on a page body, adding what it finds to `set`.
pub fn run_strategy(s: Strategy, body: &str, chars: &[char], set: &mut CandidateSet)
    requires
        old(set).wf(),
        chars@ == body@,
    ensures
        final(set).wf(),
        final(set).members() == old(set).members().union(strategy_urls(s, body@)),
{
    match s {
        Strategy::InlineState => inline_state_into(chars, set),
        Strategy::KeyPath => key_path_into(chars, set),
        Strategy::Containers => container_into(body, set),
        Strategy::ImageTags => image_tag_into(body, set),
    }
}

/// The outcome of running strategies: what they found and which of them ran.
pub struct Extraction {
    pub urls: CandidateSet,
    pub invoked: Vec<Strategy>,
}

/// Runs `strategies` in order on `body`. Without `union_all` it stops at the first strategy
/// that finds something; with it, every strategy runs and the results are united.
pub fn extract_with(body: &str, strategies: &Vec<Strategy>, union_all: bool) -> (r: Extraction)
    ensures
        r.urls.wf(),
        r.urls.members() == resolved(body@, strategies@, union_all),
        r.invoked@ == invoked(body@, strategies@, union_all),
{
    let chars = crate::text::chars_of(body);
    let ghost ss = strategies@;
    let mut acc = CandidateSet::new();
    let mut ran: Vec<Strategy> = Vec::new();
    let mut k: usize = 0;
    assert(ss.skip(0) =~= ss);
    assert(acc.members().union(resolved(body@, ss, union_all)) =~= resolved(body@, ss, union_all));
    while k < strategies.len()
        invariant
            ss == strategies@,
            chars@ == body@,
            k <= ss.len(),
            acc.wf(),
            resolved(body@, ss, union_all) == acc.members().union(
                resolved(body@, ss.skip(k as int), union_all),
            ),
            invoked(body@, ss, union_all) == ran@ + invoked(body@, ss.skip(k as int), union_all),
        decreases ss.len() - k,
    {
        let s = strategies[k];
        let mut found = CandidateSet::new();
        run_strategy(s, body, chars.as_slice(), &mut found);
        assert(found.members() =~= strategy_urls(s, body@));
        let ghost rest = ss.skip(k as int);
        assert(rest[0] == s);
        assert(rest.drop_first() =~= ss.skip(k + 1));
        ran.push(s);
        let nothing = found.is_empty();
        if !union_all && !nothing {
            let ghost before = acc.members();
            acc.union_with(&found);
            assert(invoked(body@, ss, union_all) =~= ran@);
            assert(acc.members() =~= resolved(body@, ss, union_all));
            return Extraction { urls: acc, invoked: ran };
        }
        acc.union_with(&found);
        k = k + 1;
        assert(invoked(body@, ss, union_all) =~= ran@ + invoked(body@, ss.skip(k as int), union_all));
        assert(resolved(body@, ss, union_all) =~= acc.members().union(
            resolved(body@, ss.skip(k as int), union_all),
        ));
    }
    assert(ran@ + Seq::<Strategy>::empty() =~= ran@);
    assert(acc.members().union(Set::empty()) =~= acc.members());
    Extraction { urls: acc, invoked: ran }
}

/// Every member of `s` normalized to tier `t`.
pub open spec fn normalized_set(s: Set<Seq<char>>, t: QualityTier) -> Set<Seq<char>> {
    s.map(|u: Seq<char>| normalized(u, t))
}

/// The candidates of `set`, each normalized to `tier`; URLs that become equal are kept once.
pub fn normalize_all(set: &CandidateSet, tier: QualityTier) -> (r: CandidateSet)
    ensures
        r.wf(),
        r.members() == normalized_set(set.members(), tier),
{
    let ghost l = set.list();
    let mut r = CandidateSet::new();
    let mut k: usize = 0;
    assert(r.members() =~= normalized_set(l.take(0).to_set(), tier));
    while k < set.items.len()
        invariant
            l == set.list(),
            k <= l.len(),
            r.wf(),
            r.members() == normalized_set(l.take(k as int).to_set(), tier),
        decreases l.len() - k,
    {
        let n = normalize_chars(set.items[k].as_slice(), tier);
        r.insert(n.as_slice());
        let ghost a = l.take(k as int);
        let ghost b = l.take(k + 1);
        assert(b =~= a.push(l[k as int]));
        assert(l[k as int] == set.items@[k as int]@);
        assert(normalized_set(b.to_set(), tier) =~= normalized_set(a.to_set(), tier).insert(
            normalized(l[k as int], tier),
        )) by {
            assert forall|y: Seq<char>| #[trigger] normalized_set(b.to_set(), tier).contains(y)
                <==> normalized_set(a.to_set(), tier).insert(normalized(l[k as int], tier)).contains(y) by {
                if normalized_set(b.to_set(), tier).contains(y) {
                    let x = choose|x: Seq<char>| b.to_set().contains(x) && normalized(x, tier) == y;
                    let m = choose|m: int| 0 <= m < b.len() && b[m] == x;
                    if m < k {
                        assert(a[m] == x);
                        assert(a.to_set().contains(x));
                    }
                }
                if normalized_set(a.to_set(), tier).contains(y) {
                    let x = choose|x: Seq<char>| a.to_set().contains(x) && normalized(x, tier) == y;
                    let m = choose|m: int| 0 <= m < a.len() && a[m] == x;
                    assert(b[m] == x);
                    assert(b.to_set().contains(x));
                }
                if y == normalized(l[k as int], tier) {
                    assert(b[k as int] == l[k as int]);
                    assert(b.to_set().contains(l[k as int]));
                }
            }
        }
        k = k + 1;
    }
    assert(l.take(k as int) =~= l);
    r
}

} // verus!
