//! The extraction orchestrator: which fetch to make next and when a run is resolved.
//! The caller performs each fetch and hands the body back.
use vstd::prelude::*;
use crate::candidates::{strictly_sorted, texts, CandidateSet};
use crate::extract::{
    extract_with, inline_state_into, inline_state_urls, normalize_all, normalized_set, resolved,
    text_prefixes, text_prefixes_exec, tier_prefixes, tier_prefixes_exec, Strategy,
};
use crate::quality::{pieces, push_all, QualityTier};
use crate::scanner::{scan_all, scan_all_into};
use crate::text::{chars_of, contains, contains_exec, same_chars, string_of};

verus! {

/// A parsed absolute URL, as the values the orchestrator reads.
pub struct TargetUrl {
    /// The serialized URL.
    pub text: String,
    /// The path component.
    pub path: String,
    /// The decoded query pairs, in order.
    pub query: Vec<(String, String)>,
}

/// For a URL string: `None` when it is not a valid absolute URL, otherwise its
/// serialization, path, and decoded query pairs.
pub uninterp spec fn url_parts(s: Seq<char>) -> Option<
    (Seq<char>, Seq<char>, Seq<(Seq<char>, Seq<char>)>),
>;

/// Relies on url: `Url::parse` accepts or rejects the string; for an accepted URL,
/// `Url::as_str` gives its serialization, `Url::path` its path, and `Url::query_pairs`
/// its decoded query pairs in order.
#[verifier::external_body]
fn parse_url_parts(s: &str) -> (r: Option<TargetUrl>)
    ensures
        r matches Some(u) ==> url_parts(s@) == Some((u.text@, u.path@, u.query.deep_view())),
        r is None ==> url_parts(s@) is None,
{
    match url::Url::parse(s) {
        Ok(u) => Some(TargetUrl {
            text: u.as_str().to_string(),
            path: u.path().to_string(),
            query: u.query_pairs().map(|(k, v)| (k.into_owned(), v.into_owned())).collect(),
        }),
        Err(_) => None,
    }
}

impl TargetUrl {
    /// The URL that `s` denotes, or `None` when it is not a valid absolute URL.
    pub fn parse(s: &str) -> (r: Option<TargetUrl>)
        ensures
            r matches Some(u) ==> url_parts(s@) == Some((u.text@, u.path@, u.query.deep_view())),
            r is None ==> url_parts(s@) is None,
    {
        parse_url_parts(s)
    }
}

/// A search-results page: a search path, or a query parameter in the URL.
pub open spec fn is_search(text: Seq<char>, path: Seq<char>) -> bool {
    contains(path, "/search/"@) || contains(text, "q="@) || contains(text, "query="@)
}

/// A search page of the newer kind: its query carries a module identifier and a search text.
pub open spec fn is_modern_search(pairs: Seq<(Seq<char>, Seq<char>)>) -> bool {
    query_value(pairs, "source_module_id"@) is Some && query_value(pairs, "q"@) is Some
}

/// The value of the first query pair named `key`.
pub open spec fn query_value(pairs: Seq<(Seq<char>, Seq<char>)>, key: Seq<char>) -> Option<
    Seq<char>,
>
    decreases pairs.len(),
{
    if pairs.len() == 0 {
        None
    } else if pairs[0].0 == key {
        Some(pairs[0].1)
    } else {
        query_value(pairs.drop_first(), key)
    }
}

/// The request for the search resource, built from the query text.
pub open spec fn api_url(q: Seq<char>) -> Seq<char> {
    "https://www.pinterest.com/resource/BaseSearchResource/get/?source_url=/search/pins/?q="@ + q
        + "&data=%7B%22options%22%3A%7B%22query%22%3A%22"@ + q
        + "%22%2C%22scope%22%3A%22pins%22%2C%22filters%22%3A%7B%7D%7D%2C%22context%22%3A%7B%7D%7D"@
}

/// The stages of one run, in the order they may be visited.
#[derive(Clone, Copy, Debug, PartialEq, Eq, Structural)]
pub enum Stage {
    Direct,
    ModernSearch,
    Api,
    HtmlFallback,
    Resolved,
}

/// How a page is to be fetched.
#[derive(Clone, Copy, Debug, PartialEq, Eq, Structural)]
pub enum FetchMode {
    /// With any stored session cookies.
    Authenticated,
    /// With headers that establish a session.
    Session,
    /// As a JSON API request.
    Api,
    /// A plain page request.
    Plain,
}

/// A fetch that the caller is to perform.
pub struct FetchRequest {
    pub mode: FetchMode,
    pub url: String,
}

/// What the caller does next.
pub enum Step {
    /// Perform this fetch and hand back the body.
    Fetch(FetchRequest),
    /// The run is resolved: the normalized candidate URLs in lexicographic order,
    /// empty when no images were found.
    Done(Vec<String>),
}

/// The strategies of the direct attempt.
pub open spec fn direct_strategies() -> Seq<Strategy> {
    seq![Strategy::InlineState, Strategy::KeyPath, Strategy::Containers, Strategy::ImageTags]
}

/// The strategies of the plain-page fallback.
pub open spec fn fallback_strategies() -> Seq<Strategy> {
    seq![Strategy::Containers, Strategy::ImageTags]
}

/// What a stage finds in a fetched body.
pub open spec fn stage_urls(stage: Stage, body: Seq<char>, search: bool) -> Set<Seq<char>> {
    match stage {
        Stage::Direct => resolved(body, direct_strategies(), search),
        Stage::ModernSearch => inline_state_urls(body).union(scan_all(body, tier_prefixes())),
        Stage::Api => scan_all(body, text_prefixes()),
        Stage::HtmlFallback => resolved(body, fallback_strategies(), search),
        Stage::Resolved => Set::empty(),
    }
}

/// The stage after `stage` found nothing.
pub open spec fn next_stage(stage: Stage, modern: bool, search: bool, has_query: bool) -> Stage {
    match stage {
        Stage::Direct => if modern {
            Stage::ModernSearch
        } else if search && has_query {
            Stage::Api
        } else {
            Stage::HtmlFallback
        },
        Stage::ModernSearch => if search && has_query {
            Stage::Api
        } else {
            Stage::HtmlFallback
        },
        _ => if stage == Stage::Api {
            Stage::HtmlFallback
        } else {
            Stage::Resolved
        },
    }
}

/// The state of one run.
pub struct Orchestrator {
    pub stage: Stage,
    /// The serialized target URL.
    pub target: String,
    pub search: bool,
    pub modern: bool,
    /// The search text of the target, if any.
    pub query: Option<String>,
    pub tier: QualityTier,
}

impl Orchestrator {
    /// The run can take a fetched body.
    pub open spec fn wf(&self) -> bool {
        &&& self.stage != Stage::Resolved
        &&& self.stage == Stage::Api ==> self.query is Some
    }

    /// What the current stage finds in a fetched body; a failed fetch finds nothing.
    pub open spec fn found_by(&self, body: Option<Seq<char>>) -> Set<Seq<char>> {
        match body {
            None => Set::empty(),
            Some(b) => stage_urls(self.stage, b, self.search),
        }
    }

    /// The run ends with this body: the stage found something, or it was the last one.
    pub open spec fn resolves(&self, body: Option<Seq<char>>) -> bool {
        self.found_by(body) != Set::<Seq<char>>::empty() || self.stage == Stage::HtmlFallback
    }

    /// The stage that follows the current one when it finds nothing.
    pub open spec fn next(&self) -> Stage {
        next_stage(self.stage, self.modern, self.search, self.query is Some)
    }

    /// The fetch that a stage makes.
    pub open spec fn request_for(&self, stage: Stage) -> (FetchMode, Seq<char>) {
        match stage {
            Stage::Direct => (FetchMode::Authenticated, self.target@),
            Stage::ModernSearch => (FetchMode::Session, self.target@),
            Stage::Api => (FetchMode::Api, api_url(self.query->Some_0@)),
            _ => (FetchMode::Plain, self.target@),
        }
    }

    /// Starts a run on `target`, normalizing to `tier`; returns the run and its first fetch.
    pub fn start(target: &TargetUrl, tier: QualityTier) -> (r: (Orchestrator, FetchRequest))
        ensures
            r.0.wf(),
            r.0.stage == Stage::Direct,
            r.0.target@ == target.text@,
            r.0.search == is_search(target.text@, target.path@),
            r.0.modern == is_modern_search(target.query.deep_view()),
            r.0.query.deep_view() == query_value(target.query.deep_view(), "q"@),
            r.0.tier == tier,
            r.1.mode == FetchMode::Authenticated,
            r.1.url@ == target.text@,
    {
        let text = chars_of(target.text.as_str());
        let path = chars_of(target.path.as_str());
        let search = contains_exec(path.as_slice(), chars_of("/search/").as_slice())
            || contains_exec(text.as_slice(), chars_of("q=").as_slice())
            || contains_exec(text.as_slice(), chars_of("query=").as_slice());
        let query = find_query_value(&target.query, "q");
        let module_id = find_query_value(&target.query, "source_module_id");
        let modern = module_id.is_some() && query.is_some();
        let o = Orchestrator {
            stage: Stage::Direct,
            target: string_of(text.as_slice()),
            search,
            modern,
            query,
            tier,
        };
        let req = FetchRequest { mode: FetchMode::Authenticated, url: string_of(text.as_slice()) };
        (o, req)
    }

    /// Takes the body of the fetch last requested, or `None` when that fetch failed, and
    /// says what to do next. A stage that finds candidates resolves the run; otherwise the
    /// run moves to the next stage, and the plain-page fallback resolves it in any case.
    pub fn on_fetched(&mut self, body: Option<String>) -> (r: Step)
        requires
            old(self).wf(),
        ensures
            final(self).target == old(self).target,
            final(self).search == old(self).search,
            final(self).modern == old(self).modern,
            final(self).query == old(self).query,
            final(self).tier == old(self).tier,
            old(self).resolves(body.deep_view()) ==> final(self).stage == Stage::Resolved,
            old(self).resolves(body.deep_view()) ==> (r matches Step::Done(list) && strictly_sorted(
                texts(list@),
            ) && texts(list@).to_set() == normalized_set(
                old(self).found_by(body.deep_view()),
                old(self).tier,
            )),
            !old(self).resolves(body.deep_view()) ==> final(self).stage == old(self).next()
                && final(self).wf(),
            !old(self).resolves(body.deep_view()) ==> (r matches Step::Fetch(req) && req.mode
                == old(self).request_for(old(self).next()).0 && req.url@ == old(self).request_for(
                old(self).next(),
            ).1),
    {
        let mut found = CandidateSet::new();
        match &body {
            None => {},
            Some(b) => {
                let chars = chars_of(b.as_str());
                match self.stage {
                    Stage::Direct => {
                        let ss = vec![
                            Strategy::InlineState,
                            Strategy::KeyPath,
                            Strategy::Containers,
                            Strategy::ImageTags,
                        ];
                        assert(ss@ =~= direct_strategies());
                        let e = extract_with(b.as_str(), &ss, self.search);
                        found = e.urls;
                    },
                    Stage::ModernSearch => {
                        inline_state_into(chars.as_slice(), &mut found);
                        let ps = tier_prefixes_exec();
                        scan_all_into(chars.as_slice(), &ps, &mut found);
                        assert(found.members() =~= stage_urls(self.stage, b@, self.search));
                    },
                    Stage::Api => {
                        let ps = text_prefixes_exec();
                        scan_all_into(chars.as_slice(), &ps, &mut found);
                        assert(found.members() =~= stage_urls(self.stage, b@, self.search));
                    },
                    _ => {
                        let ss = vec![Strategy::Containers, Strategy::ImageTags];
                        assert(ss@ =~= fallback_strategies());
                        let e = extract_with(b.as_str(), &ss, self.search);
                        found = e.urls;
                    },
                }
            },
        }
        let nothing = found.is_empty();
        if !nothing || self.stage == Stage::HtmlFallback {
            self.stage = Stage::Resolved;
            let normalized = normalize_all(&found, self.tier);
            return Step::Done(normalized.to_strings());
        }
        let next = match self.stage {
            Stage::Direct => if self.modern {
                Stage::ModernSearch
            } else if self.search && self.query.is_some() {
                Stage::Api
            } else {
                Stage::HtmlFallback
            },
            Stage::ModernSearch => if self.search && self.query.is_some() {
                Stage::Api
            } else {
                Stage::HtmlFallback
            },
            _ => Stage::HtmlFallback,
        };
        self.stage = next;
        let req = match next {
            Stage::ModernSearch => FetchRequest {
                mode: FetchMode::Session,
                url: self.target.clone(),
            },
            Stage::Api => {
                let q = match &self.query {
                    Some(q) => q,
                    None => unreached(),
                };
                FetchRequest { mode: FetchMode::Api, url: build_api_url(q.as_str()) }
            },
            _ => FetchRequest { mode: FetchMode::Plain, url: self.target.clone() },
        };
        Step::Fetch(req)
    }
}

/// The value of the first query pair named `key`.
pub fn find_query_value(pairs: &Vec<(String, String)>, key: &str) -> (r: Option<String>)
    ensures
        r.deep_view() == query_value(pairs.deep_view(), key@),
{
    let k = chars_of(key);
    let ghost ps = pairs.deep_view();
    let mut i: usize = 0;
    assert(ps.skip(0) =~= ps);
    while i < pairs.len()
        invariant
            ps == pairs.deep_view(),
            k@ == key@,
            i <= ps.len(),
            query_value(ps, key@) == query_value(ps.skip(i as int), key@),
        decreases ps.len() - i,
    {
        assert(ps.skip(i as int)[0] == ps[i as int]);
        assert(ps[i as int] == (pairs@[i as int].0@, pairs@[i as int].1@));
        let name = chars_of(pairs[i].0.as_str());
        if same_chars(name.as_slice(), k.as_slice()) {
            let v = chars_of(pairs[i].1.as_str());
            return Some(string_of(v.as_slice()));
        }
        assert(ps.skip(i as int).drop_first() =~= ps.skip(i + 1));
        i = i + 1;
    }
    None
}

/// The request for the search resource, built from the query text `q`.
pub fn build_api_url(q: &str) -> (r: String)
    ensures
        r@ == api_url(q@),
{
    let qc = chars_of(q);
    let mut u: Vec<char> = chars_of(
        "https://www.pinterest.com/resource/BaseSearchResource/get/?source_url=/search/pins/?q=",
    );
    push_all(&mut u, qc.as_slice());
    push_all(&mut u, chars_of("&data=%7B%22options%22%3A%7B%22query%22%3A%22").as_slice());
    push_all(&mut u, qc.as_slice());
    push_all(
        &mut u,
        chars_of(
            "%22%2C%22scope%22%3A%22pins%22%2C%22filters%22%3A%7B%7D%7D%2C%22context%22%3A%7B%7D%7D",
        ).as_slice(),
    );
    string_of(u.as_slice())
}

} // verus!
