use pinterest_downloader::orchestrator::{
    build_api_url, find_query_value, FetchMode, Orchestrator, Stage, Step, TargetUrl,
};
use pinterest_downloader::quality::QualityTier;

const EMPTY_PAGE: &str = "<html><body>nothing here</body></html>";

fn fetch_of(step: Step) -> (FetchMode, String) {
    match step {
        Step::Fetch(req) => (req.mode, req.url),
        Step::Done(_) => panic!("expected a fetch"),
    }
}

fn done_of(step: Step) -> Vec<String> {
    match step {
        Step::Done(list) => list,
        Step::Fetch(_) => panic!("expected the run to be resolved"),
    }
}

#[test]
fn malformed_target_is_rejected() {
    assert!(TargetUrl::parse("not a url").is_none());
    assert!(TargetUrl::parse("").is_none());
}

#[test]
fn target_parts_are_read() {
    let t = TargetUrl::parse("https://www.pinterest.com/search/pins/?q=cats&rs=typed").unwrap();
    assert_eq!(t.text, "https://www.pinterest.com/search/pins/?q=cats&rs=typed");
    assert_eq!(t.path, "/search/pins/");
    assert_eq!(
        t.query,
        vec![("q".to_string(), "cats".to_string()), ("rs".to_string(), "typed".to_string())]
    );
    assert_eq!(find_query_value(&t.query, "rs"), Some("typed".to_string()));
    assert_eq!(find_query_value(&t.query, "zz"), None);
}

#[test]
fn search_run_walks_every_stage_and_finds_nothing() {
    let t = TargetUrl::parse("https://www.pinterest.com/search/pins/?q=cats").unwrap();
    let (mut o, first) = Orchestrator::start(&t, QualityTier::Original);
    assert!(o.search);
    assert!(!o.modern);
    assert_eq!(o.query, Some("cats".to_string()));
    assert_eq!(first.mode, FetchMode::Authenticated);
    assert_eq!(first.url, "https://www.pinterest.com/search/pins/?q=cats");

    let (mode, url) = fetch_of(o.on_fetched(Some(EMPTY_PAGE.to_string())));
    assert_eq!(o.stage, Stage::Api);
    assert_eq!(mode, FetchMode::Api);
    assert_eq!(url, build_api_url("cats"));

    let (mode, url) = fetch_of(o.on_fetched(None));
    assert_eq!(o.stage, Stage::HtmlFallback);
    assert_eq!(mode, FetchMode::Plain);
    assert_eq!(url, "https://www.pinterest.com/search/pins/?q=cats");

    let list = done_of(o.on_fetched(Some(EMPTY_PAGE.to_string())));
    assert_eq!(o.stage, Stage::Resolved);
    assert!(list.is_empty());
}

#[test]
fn failed_last_fetch_ends_with_no_images() {
    let t = TargetUrl::parse("https://www.pinterest.com/pin/123/").unwrap();
    let (mut o, _) = Orchestrator::start(&t, QualityTier::Original);
    assert!(!o.search);
    let (mode, _) = fetch_of(o.on_fetched(None));
    assert_eq!(o.stage, Stage::HtmlFallback);
    assert_eq!(mode, FetchMode::Plain);
    assert!(done_of(o.on_fetched(None)).is_empty());
}

#[test]
fn direct_attempt_resolves_with_normalized_urls() {
    let t = TargetUrl::parse("https://www.pinterest.com/pin/123/").unwrap();
    let (mut o, _) = Orchestrator::start(&t, QualityTier::Original);
    let page = "<script>{\"initial_state\": {\"x\": \"https://i.pinimg.com/236x/p/q/r.jpg\", \
                \"y\": \"https://i.pinimg.com/474x/p/q/r.jpg\"}}</script>";
    let list = done_of(o.on_fetched(Some(page.to_string())));
    assert_eq!(list, vec!["https://i.pinimg.com/originals/p/q/r.jpg".to_string()]);
    assert_eq!(o.stage, Stage::Resolved);
}

#[test]
fn modern_search_takes_the_session_stage() {
    let t = TargetUrl::parse("https://www.pinterest.com/search/pins/?q=cats&source_module_id=abc")
        .unwrap();
    let (mut o, _) = Orchestrator::start(&t, QualityTier::Medium);
    assert!(o.modern);
    let (mode, url) = fetch_of(o.on_fetched(Some(EMPTY_PAGE.to_string())));
    assert_eq!(o.stage, Stage::ModernSearch);
    assert_eq!(mode, FetchMode::Session);
    assert_eq!(url, "https://www.pinterest.com/search/pins/?q=cats&source_module_id=abc");
    let page = "<div data-x=\"https://i.pinimg.com/736x/m/n.jpg\"></div>";
    let list = done_of(o.on_fetched(Some(page.to_string())));
    assert_eq!(list, vec!["https://i.pinimg.com/474x/m/n.jpg".to_string()]);
}

#[test]
fn api_stage_scans_the_response() {
    let t = TargetUrl::parse("https://www.pinterest.com/search/pins/?q=dogs").unwrap();
    let (mut o, _) = Orchestrator::start(&t, QualityTier::Large);
    let _ = fetch_of(o.on_fetched(None));
    assert_eq!(o.stage, Stage::Api);
    let json = "{\"data\": [{\"img\": \"https://i.pinimg.com/originals/d/o/g.png\"}]}";
    let list = done_of(o.on_fetched(Some(json.to_string())));
    assert_eq!(list, vec!["https://i.pinimg.com/736x/d/o/g.png".to_string()]);
}

#[test]
fn search_without_query_text_skips_the_api() {
    let t = TargetUrl::parse("https://www.pinterest.com/search/pins/").unwrap();
    let (mut o, _) = Orchestrator::start(&t, QualityTier::Large);
    assert!(o.search);
    assert_eq!(o.query, None);
    let _ = fetch_of(o.on_fetched(None));
    assert_eq!(o.stage, Stage::HtmlFallback);
}

#[test]
fn api_request_carries_the_query_twice() {
    assert_eq!(
        build_api_url("cats"),
        "https://www.pinterest.com/resource/BaseSearchResource/get/?source_url=/search/pins/?q=cats\
         &data=%7B%22options%22%3A%7B%22query%22%3A%22cats%22%2C%22scope%22%3A%22pins%22%2C\
         %22filters%22%3A%7B%7D%7D%2C%22context%22%3A%7B%7D%7D"
    );
}

#[test]
fn module_id_must_be_a_query_parameter() {
    let t = TargetUrl::parse("https://www.pinterest.com/search/pins/?q=cats&rs=source_module_id")
        .unwrap();
    let (mut o, _) = Orchestrator::start(&t, QualityTier::Large);
    assert!(!o.modern);
    let _ = fetch_of(o.on_fetched(None));
    assert_eq!(o.stage, Stage::Api);
}

#[test]
fn module_id_without_search_text_is_not_modern() {
    let t = TargetUrl::parse("https://www.pinterest.com/search/pins/?source_module_id=abc").unwrap();
    let (mut o, _) = Orchestrator::start(&t, QualityTier::Large);
    assert!(!o.modern);
    let _ = fetch_of(o.on_fetched(None));
    assert_eq!(o.stage, Stage::HtmlFallback);
}
