use pinterest_downloader::candidates::CandidateSet;
use pinterest_downloader::extract::{extract_with, normalize_all, Strategy};
use pinterest_downloader::quality::QualityTier;

const STATE_PAGE: &str = "<html><script>{\"initial_state\": {\"pins\": {\"a\": \
    \"https://i.pinimg.com/236x/p/q/r.jpg\"}}}</script>\
    <div class=\"PinImage\"><img src=\"https://i.pinimg.com/736x/d/o/m.jpg\"></div></html>";

fn all_strategies() -> Vec<Strategy> {
    vec![Strategy::InlineState, Strategy::KeyPath, Strategy::Containers, Strategy::ImageTags]
}

#[test]
fn first_successful_strategy_stops_the_rest() {
    let e = extract_with(STATE_PAGE, &all_strategies(), false);
    assert_eq!(e.invoked, vec![Strategy::InlineState]);
    assert_eq!(e.urls.to_strings(), vec!["https://i.pinimg.com/236x/p/q/r.jpg".to_string()]);
}

#[test]
fn search_pages_unite_all_strategies() {
    let e = extract_with(STATE_PAGE, &all_strategies(), true);
    assert_eq!(e.invoked, all_strategies());
    assert_eq!(
        e.urls.to_strings(),
        vec![
            "https://i.pinimg.com/236x/p/q/r.jpg".to_string(),
            "https://i.pinimg.com/736x/d/o/m.jpg".to_string(),
        ]
    );
}

#[test]
fn empty_strategies_fall_through_in_order() {
    let page = "<html><body><img src=\"https://i.pinimg.com/736x/t/u.webp\">\
                <img src=\"https://example.com/x.jpg\"></body></html>";
    let e = extract_with(page, &all_strategies(), false);
    assert_eq!(e.invoked, vec![Strategy::InlineState, Strategy::KeyPath, Strategy::Containers]);
    assert_eq!(e.urls.to_strings(), vec!["https://i.pinimg.com/736x/t/u.webp".to_string()]);
}

#[test]
fn image_tags_are_the_last_resort() {
    let page = "<html><body><p><img srcset=\"https://i.pinimg.com/474x/t/v.png\"></p></body></html>";
    let e = extract_with(page, &vec![Strategy::Containers, Strategy::ImageTags], false);
    assert_eq!(e.invoked, vec![Strategy::Containers, Strategy::ImageTags]);
    assert_eq!(e.urls.to_strings(), vec!["https://i.pinimg.com/474x/t/v.png".to_string()]);
}

#[test]
fn nothing_found_anywhere() {
    let e = extract_with("<html><body>nothing</body></html>", &all_strategies(), false);
    assert_eq!(e.invoked, all_strategies());
    assert!(e.urls.to_strings().is_empty());
}

#[test]
fn key_path_reads_original_url() {
    let page = "{\"original\": {\"width\": 10, \"url\": \"https://i.pinimg.com/originals/k/e/y.png\"}}";
    let e = extract_with(page, &vec![Strategy::KeyPath], false);
    assert_eq!(e.urls.to_strings(), vec!["https://i.pinimg.com/originals/k/e/y.png".to_string()]);
}

#[test]
fn key_path_ignores_url_outside_window() {
    let filler = "x".repeat(120);
    let page = format!(
        "{{\"original\": {{\"note\": \"{}\", \"url\": \"https://i.pinimg.com/originals/k.png\"}}}}",
        filler
    );
    let e = extract_with(&page, &vec![Strategy::KeyPath], false);
    assert!(e.urls.to_strings().is_empty());
}

#[test]
fn unbalanced_state_yields_nothing() {
    let page = "\"initial_state\": {\"a\": {\"b\": \"https://i.pinimg.com/236x/p.jpg\"}";
    let e = extract_with(page, &vec![Strategy::InlineState], false);
    assert!(e.urls.to_strings().is_empty());
}

#[test]
fn containers_read_candidate_lists() {
    let page = "<div class=\"PinImage\"><img srcset=\"https://i.pinimg.com/236x/s/1.jpg 1x, \
                https://i.pinimg.com/736x/s/2.jpg 2x\"></div>";
    let e = extract_with(page, &vec![Strategy::Containers], false);
    assert_eq!(
        e.urls.to_strings(),
        vec![
            "https://i.pinimg.com/236x/s/1.jpg".to_string(),
            "https://i.pinimg.com/736x/s/2.jpg".to_string(),
        ]
    );
}

#[test]
fn repeated_runs_give_the_same_list() {
    let a = extract_with(STATE_PAGE, &all_strategies(), true);
    let b = extract_with(STATE_PAGE, &all_strategies(), true);
    assert_eq!(a.urls.to_strings(), b.urls.to_strings());
    assert_eq!(a.invoked, b.invoked);
}

#[test]
fn candidate_set_keeps_order_and_uniqueness() {
    let mut s = CandidateSet::new();
    for u in ["b", "a", "c", "a", "b"] {
        let cs: Vec<char> = u.chars().collect();
        s.insert(&cs);
    }
    assert_eq!(s.len(), 3);
    assert_eq!(s.to_strings(), vec!["a".to_string(), "b".to_string(), "c".to_string()]);
}

#[test]
fn normalizing_a_set_merges_variants() {
    let mut s = CandidateSet::new();
    for u in ["https://i.pinimg.com/236x/a.jpg", "https://i.pinimg.com/474x/a.jpg"] {
        let cs: Vec<char> = u.chars().collect();
        s.insert(&cs);
    }
    let n = normalize_all(&s, QualityTier::Original);
    assert_eq!(n.to_strings(), vec!["https://i.pinimg.com/originals/a.jpg".to_string()]);
}

#[test]
fn padded_attribute_value_is_kept_as_found() {
    let page = "<html><body><img src=\" https://i.pinimg.com/736x/t/u.webp \"></body></html>";
    let e = extract_with(page, &vec![Strategy::ImageTags], false);
    assert_eq!(e.urls.to_strings(), vec![" https://i.pinimg.com/736x/t/u.webp ".to_string()]);
}

#[test]
fn candidate_list_splits_on_unicode_space() {
    let page = "<div class=\"PinImage\"><img srcset=\"https://i.pinimg.com/736x/a.jpg\u{a0}2x\"></div>";
    let e = extract_with(page, &vec![Strategy::Containers], false);
    assert_eq!(e.urls.to_strings(), vec!["https://i.pinimg.com/736x/a.jpg".to_string()]);
}
