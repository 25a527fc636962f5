//! The DOM-based strategies: element selection by CSS selector and attribute reading.
use vstd::prelude::*;
use crate::candidates::CandidateSet;
use crate::quality::{pieces, split_chars, split_on};
use crate::scanner::{is_asset_url, is_asset_url_exec};
use crate::text::{is_white, is_white_exec, sub_chars};

verus! {

/// For a parsed document and a selector: `None` when the selector is malformed, otherwise
/// one row per matching element, in the order in which `Html::select` yields them, holding
/// the value of each named attribute that the element carries.
pub uninterp spec fn selected_attributes(
    html: Seq<char>,
    selector: Seq<char>,
    names: Seq<Seq<char>>,
) -> Option<Seq<Seq<Option<Seq<char>>>>>;

/// Relies on scraper: `Selector::parse` fails on a malformed selector; otherwise
/// `Html::parse_document` and `Html::select` give the matching elements, and
/// `Element::attr` reads each named attribute.
#[verifier::external_body]
fn select_attributes(html: &str, selector: &str, names: &Vec<String>) -> (r: Option<
    Vec<Vec<Option<String>>>,
>)
    ensures
        r.deep_view() == selected_attributes(html@, selector@, names.deep_view()),
{
    let sel = match scraper::Selector::parse(selector) {
        Ok(sel) => sel,
        Err(_) => return None,
    };
    let doc = scraper::Html::parse_document(html);
    Some(
        doc.select(&sel).map(
            |e| names.iter().map(|n| e.value().attr(n).map(|v| v.to_string())).collect(),
        ).collect(),
    )
}

/// The attributes that may carry an image URL; those from index 2 on hold candidate lists
/// (comma-separated entries of a URL and a descriptor).
pub open spec fn attribute_names() -> Seq<Seq<char>> {
    seq!["src"@, "data-src"@, "srcset"@, "data-srcset"@]
}

/// Layout selectors for image containers, current layouts first.
pub open spec fn container_selectors() -> Seq<Seq<char>> {
    seq![
        ".GrowthUnauthPinImage img"@,
        ".PinImage img"@,
        ".pinWrapper img"@,
        "div[data-test-id=\"pin\"] img"@,
        ".searchImgContainer img"@,
        ".gridCentered img"@,
        "img[src*=\"pinimg.com\"]"@,
        "img[data-src*=\"pinimg.com\"]"@,
        ".SearchPageContent img"@,
        ".Grid__Item img"@,
        "div[role='list'] div[role='listitem'] img"@,
        "div.Pin img"@,
        ".pinHolder img"@,
        ".pinImageWrapper img"@,
        "[data-test-id=\"pinrep-image\"]"@,
        ".GrowthPinImage img"@,
    ]
}

/// The selector of every image element.
pub open spec fn image_selector() -> Seq<char> {
    "img"@
}

/// The first index at or after `i` that is not white space.
pub open spec fn skip_spaces(s: Seq<char>, i: int) -> int
    decreases s.len() - i,
{
    if 0 <= i < s.len() && is_white(s[i]) {
        skip_spaces(s, i + 1)
    } else {
        i
    }
}

/// The first index at or after `i` that is whitespace, or the end.
pub open spec fn token_end(s: Seq<char>, i: int) -> int
    decreases s.len() - i,
{
    if 0 <= i < s.len() && !is_white(s[i]) {
        token_end(s, i + 1)
    } else {
        i
    }
}

/// The first whitespace-separated token of `s`.
pub open spec fn first_token(s: Seq<char>) -> Option<Seq<char>> {
    let a = skip_spaces(s, 0);
    if a >= s.len() {
        None
    } else {
        Some(s.subrange(a, token_end(s, a)))
    }
}

/// `v` alone when it is an asset URL.
pub open spec fn accepted(v: Seq<char>) -> Set<Seq<char>> {
    if is_asset_url(v) {
        set![v]
    } else {
        Set::empty()
    }
}

/// The URLs of candidate-list entries: the first token of each, when it is an asset URL.
pub open spec fn entry_urls(entries: Seq<Seq<char>>) -> Set<Seq<char>>
    decreases entries.len(),
{
    if entries.len() == 0 {
        Set::empty()
    } else {
        entry_urls(entries.drop_last()).union(
            match first_token(entries.last()) {
                Some(tok) => accepted(tok),
                None => Set::empty(),
            },
        )
    }
}

/// The URLs in one attribute value.
pub open spec fn value_urls(v: Seq<char>, is_list: bool) -> Set<Seq<char>> {
    if is_list {
        entry_urls(split_on(v, ','))
    } else {
        accepted(v)
    }
}

/// The URLs in one element's attribute values; with `lists`, the attributes from index 2
/// on are read as candidate lists.
pub open spec fn row_urls(row: Seq<Option<Seq<char>>>, lists: bool) -> Set<Seq<char>>
    decreases row.len(),
{
    if row.len() == 0 {
        Set::empty()
    } else {
        row_urls(row.drop_last(), lists).union(
            match row.last() {
                Some(v) => value_urls(v, lists && row.len() - 1 >= 2),
                None => Set::empty(),
            },
        )
    }
}

/// The URLs in the attribute values of the selected elements.
pub open spec fn rows_urls(rows: Seq<Seq<Option<Seq<char>>>>, lists: bool) -> Set<Seq<char>>
    decreases rows.len(),
{
    if rows.len() == 0 {
        Set::empty()
    } else {
        rows_urls(rows.drop_last(), lists).union(row_urls(rows.last(), lists))
    }
}

/// The URLs of one selection; a malformed selector selects nothing.
pub open spec fn selection_urls(sel: Option<Seq<Seq<Option<Seq<char>>>>>, lists: bool) -> Set<
    Seq<char>,
> {
    match sel {
        None => Set::empty(),
        Some(rows) => rows_urls(rows, lists),
    }
}

/// The URLs of the elements that any of `selectors` matches.
pub open spec fn selectors_urls(html: Seq<char>, selectors: Seq<Seq<char>>) -> Set<Seq<char>>
    decreases selectors.len(),
{
    if selectors.len() == 0 {
        Set::empty()
    } else {
        selectors_urls(html, selectors.drop_last()).union(
            selection_urls(selected_attributes(html, selectors.last(), attribute_names()), true),
        )
    }
}

/// Strategy 3: URLs in the image containers of known layouts.
pub open spec fn container_urls(html: Seq<char>) -> Set<Seq<char>> {
    selectors_urls(html, container_selectors())
}

/// Strategy 4: any image element attribute value that is an asset URL.
pub open spec fn image_tag_urls(html: Seq<char>) -> Set<Seq<char>> {
    selection_urls(selected_attributes(html, image_selector(), attribute_names()), false)
}

proof fn lemma_skip_spaces(s: Seq<char>, i: int)
    requires
        0 <= i <= s.len(),
    ensures
        i <= skip_spaces(s, i) <= s.len(),
    decreases s.len() - i,
{
    if i < s.len() && is_white(s[i]) {
        lemma_skip_spaces(s, i + 1);
    }
}

proof fn lemma_token_end(s: Seq<char>, i: int)
    requires
        0 <= i <= s.len(),
    ensures
        i <= token_end(s, i) <= s.len(),
    decreases s.len() - i,
{
    if i < s.len() && !is_white(s[i]) {
        lemma_token_end(s, i + 1);
    }
}

/// The first whitespace-separated token of `s`.
pub fn first_token_exec(s: &[char]) -> (r: Option<Vec<char>>)
    ensures
        r matches Some(v) ==> first_token(s@) == Some(v@),
        r is None ==> first_token(s@) is None,
{
    let n = s.len();
    let mut a: usize = 0;
    while a < n && is_white_exec(s[a])
        invariant
            n == s@.len(),
            a <= n,
            skip_spaces(s@, 0) == skip_spaces(s@, a as int),
        decreases n - a,
    {
        a = a + 1;
    }
    if a >= n {
        return None;
    }
    let mut b: usize = a;
    while b < n && !is_white_exec(s[b])
        invariant
            n == s@.len(),
            a <= b <= n,
            token_end(s@, a as int) == token_end(s@, b as int),
        decreases n - b,
    {
        b = b + 1;
    }
    Some(sub_chars(s, a, b))
}

/// Adds `v` when it is an asset URL.
fn accept_into(v: &[char], set: &mut CandidateSet)
    requires
        old(set).wf(),
    ensures
        final(set).wf(),
        final(set).members() == old(set).members().union(accepted(v@)),
{
    if is_asset_url_exec(v) {
        set.insert(v);
        assert(set.members() =~= old(set).members().union(accepted(v@)));
    } else {
        assert(old(set).members().union(accepted(v@)) =~= old(set).members());
    }
}

/// Adds the URLs in one attribute value.
fn value_into(v: &[char], is_list: bool, set: &mut CandidateSet)
    requires
        old(set).wf(),
    ensures
        final(set).wf(),
        final(set).members() == old(set).members().union(value_urls(v@, is_list)),
{
    if !is_list {
        accept_into(v, set);
        return;
    }
    let entries = split_chars(v, ',');
    let ghost es = pieces(entries@);
    let mut k: usize = 0;
    assert(old(set).members().union(entry_urls(es.take(0))) =~= old(set).members()) by {
        assert(es.take(0) =~= Seq::<Seq<char>>::empty());
    }
    while k < entries.len()
        invariant
            es == pieces(entries@),
            k <= es.len(),
            set.wf(),
            set.members() == old(set).members().union(entry_urls(es.take(k as int))),
        decreases es.len() - k,
    {
        let ghost before = set.members();
        match first_token_exec(entries[k].as_slice()) {
            Some(tok) => {
                accept_into(tok.as_slice(), set);
            },
            None => {
                assert(before.union(Set::empty()) =~= before);
            },
        }
        assert(es.take(k + 1).drop_last() =~= es.take(k as int));
        assert(es.take(k + 1).last() == entries@[k as int]@);
        k = k + 1;
        assert(set.members() =~= old(set).members().union(entry_urls(es.take(k as int))));
    }
    assert(es.take(k as int) =~= es);
}

/// Adds the URLs in one element's attribute values.
fn row_into(row: &Vec<Option<String>>, lists: bool, set: &mut CandidateSet)
    requires
        old(set).wf(),
    ensures
        final(set).wf(),
        final(set).members() == old(set).members().union(row_urls(row.deep_view(), lists)),
{
    let ghost rv = row.deep_view();
    let mut k: usize = 0;
    assert(old(set).members().union(row_urls(rv.take(0), lists)) =~= old(set).members()) by {
        assert(rv.take(0) =~= Seq::<Option<Seq<char>>>::empty());
    }
    while k < row.len()
        invariant
            rv == row.deep_view(),
            k <= rv.len(),
            set.wf(),
            set.members() == old(set).members().union(row_urls(rv.take(k as int), lists)),
        decreases rv.len() - k,
    {
        let ghost before = set.members();
        assert(rv[k as int] == row@[k as int].deep_view());
        match &row[k] {
            Some(v) => {
                let cs = crate::text::chars_of(v.as_str());
                value_into(cs.as_slice(), lists && k >= 2, set);
            },
            None => {
                assert(before.union(Set::empty()) =~= before);
            },
        }
        assert(rv.take(k + 1).drop_last() =~= rv.take(k as int));
        assert(rv.take(k + 1).last() == rv[k as int]);
        k = k + 1;
        assert(set.members() =~= old(set).members().union(row_urls(rv.take(k as int), lists)));
    }
    assert(rv.take(k as int) =~= rv);
}

/// Adds the URLs of one selection.
fn selection_into(sel: &Option<Vec<Vec<Option<String>>>>, lists: bool, set: &mut CandidateSet)
    requires
        old(set).wf(),
    ensures
        final(set).wf(),
        final(set).members() == old(set).members().union(selection_urls(sel.deep_view(), lists)),
{
    match sel {
        None => {
            assert(old(set).members().union(Set::empty()) =~= old(set).members());
        },
        Some(rows) => {
            let ghost rs = rows.deep_view();
            let mut k: usize = 0;
            assert(old(set).members().union(rows_urls(rs.take(0), lists)) =~= old(set).members())
                by {
                assert(rs.take(0) =~= Seq::<Seq<Option<Seq<char>>>>::empty());
            }
            while k < rows.len()
                invariant
                    rs == rows.deep_view(),
                    k <= rs.len(),
                    set.wf(),
                    set.members() == old(set).members().union(rows_urls(rs.take(k as int), lists)),
                decreases rs.len() - k,
            {
                assert(rs[k as int] == rows@[k as int].deep_view());
                row_into(&rows[k], lists, set);
                assert(rs.take(k + 1).drop_last() =~= rs.take(k as int));
                assert(rs.take(k + 1).last() == rs[k as int]);
                k = k + 1;
                assert(set.members() =~= old(set).members().union(
                    rows_urls(rs.take(k as int), lists),
                ));
            }
            assert(rs.take(k as int) =~= rs);
        },
    }
}

/// The attribute names, as strings.
fn attribute_names_exec() -> (r: Vec<String>)
    ensures
        r.deep_view() == attribute_names(),
{
    let r = vec!["src".to_owned(), "data-src".to_owned(), "srcset".to_owned(), "data-srcset".to_owned()];
    assert(r.deep_view() =~= attribute_names());
    r
}

/// The container selectors, as strings.
fn container_selectors_exec() -> (r: Vec<String>)
    ensures
        r.deep_view() == container_selectors(),
{
    let r = vec![
        ".GrowthUnauthPinImage img".to_owned(),
        ".PinImage img".to_owned(),
        ".pinWrapper img".to_owned(),
        "div[data-test-id=\"pin\"] img".to_owned(),
        ".searchImgContainer img".to_owned(),
        ".gridCentered img".to_owned(),
        "img[src*=\"pinimg.com\"]".to_owned(),
        "img[data-src*=\"pinimg.com\"]".to_owned(),
        ".SearchPageContent img".to_owned(),
        ".Grid__Item img".to_owned(),
        "div[role='list'] div[role='listitem'] img".to_owned(),
        "div.Pin img".to_owned(),
        ".pinHolder img".to_owned(),
        ".pinImageWrapper img".to_owned(),
        "[data-test-id=\"pinrep-image\"]".to_owned(),
        ".GrowthPinImage img".to_owned(),
    ];
    assert(r.deep_view() =~= container_selectors());
    r
}

/// Strategy 3: adds the URLs in the image containers of known layouts.
pub fn container_into(html: &str, set: &mut CandidateSet)
    requires
        old(set).wf(),
    ensures
        final(set).wf(),
        final(set).members() == old(set).members().union(container_urls(html@)),
{
    let names = attribute_names_exec();
    let selectors = container_selectors_exec();
    let ghost ss = selectors.deep_view();
    let mut k: usize = 0;
    assert(old(set).members().union(selectors_urls(html@, ss.take(0))) =~= old(set).members())
        by {
        assert(ss.take(0) =~= Seq::<Seq<char>>::empty());
    }
    while k < selectors.len()
        invariant
            ss == selectors.deep_view(),
            names.deep_view() == attribute_names(),
            k <= ss.len(),
            set.wf(),
            set.members() == old(set).members().union(selectors_urls(html@, ss.take(k as int))),
        decreases ss.len() - k,
    {
        let sel = select_attributes(html, selectors[k].as_str(), &names);
        selection_into(&sel, true, set);
        assert(ss.take(k + 1).drop_last() =~= ss.take(k as int));
        assert(ss.take(k + 1).last() == ss[k as int]);
        k = k + 1;
        assert(set.members() =~= old(set).members().union(selectors_urls(html@, ss.take(k as int))));
    }
    assert(ss.take(k as int) =~= ss);
}

/// Strategy 4: adds every image element attribute value that is an asset URL.
pub fn image_tag_into(html: &str, set: &mut CandidateSet)
    requires
        old(set).wf(),
    ensures
        final(set).wf(),
        final(set).members() == old(set).members().union(image_tag_urls(html@)),
{
    let names = attribute_names_exec();
    let sel = select_attributes(html, "img", &names);
    selection_into(&sel, false, set);
}

} // verus!
