use pinterest_downloader::quality::{normalize, QualityTier};
use pinterest_downloader::scanner::{is_pinterest_image_url, scan};

fn strings(v: &[&str]) -> Vec<String> {
    v.iter().map(|s| s.to_string()).collect()
}

#[test]
fn repeated_url_is_found_once_and_upgrades() {
    let body = "<a href=\"https://i.pinimg.com/474x/a/b/c.jpg\">x</a> \
                'https://i.pinimg.com/474x/a/b/c.jpg' (https://i.pinimg.com/474x/a/b/c.jpg) end";
    let found = scan(body, &strings(&["https://i.pinimg.com/474x/"]));
    assert_eq!(found, strings(&["https://i.pinimg.com/474x/a/b/c.jpg"]));
    assert_eq!(
        normalize(&found[0], QualityTier::Original),
        "https://i.pinimg.com/originals/a/b/c.jpg"
    );
}

#[test]
fn capture_stops_before_each_delimiter() {
    let cases = [
        ("x https://i.pinimg.com/736x/q.png} y", "https://i.pinimg.com/736x/q.png"),
        ("x https://i.pinimg.com/736x/q.png) y", "https://i.pinimg.com/736x/q.png"),
        ("x https://i.pinimg.com/736x/q.png\\\" y", "https://i.pinimg.com/736x/q.png"),
        ("x https://i.pinimg.com/736x/q.png' y", "https://i.pinimg.com/736x/q.png"),
        ("x https://i.pinimg.com/736x/q.png y", "https://i.pinimg.com/736x/q.png"),
    ];
    for (body, want) in cases {
        let found = scan(body, &strings(&["https://i.pinimg.com/736x/"]));
        assert_eq!(found, strings(&[want]));
        for delimiter in ['"', '\'', ')', '}', '\\', ' '] {
            assert!(!found[0].contains(delimiter));
        }
    }
}

#[test]
fn occurrence_without_delimiter_is_skipped() {
    let found = scan(
        "see https://i.pinimg.com/736x/q.png",
        &strings(&["https://i.pinimg.com/736x/"]),
    );
    assert!(found.is_empty());
}

#[test]
fn non_asset_captures_are_rejected() {
    let found = scan("\"https://pin.it/abc\" ", &strings(&["https://pin.it/"]));
    assert!(found.is_empty());
}

#[test]
fn results_are_sorted_and_start_with_a_prefix() {
    let body = "\"https://i.pinimg.com/originals/z.jpg\" \"https://i.pinimg.com/236x/a.gif\" \
                \"https://i.pinimg.com/originals/b.jpg\"";
    let prefixes = strings(&["https://i.pinimg.com/originals/", "https://i.pinimg.com/236x/"]);
    let found = scan(body, &prefixes);
    assert_eq!(
        found,
        strings(&[
            "https://i.pinimg.com/236x/a.gif",
            "https://i.pinimg.com/originals/b.jpg",
            "https://i.pinimg.com/originals/z.jpg",
        ])
    );
    for u in &found {
        assert!(prefixes.iter().any(|p| u.starts_with(p.as_str())));
    }
}

#[test]
fn empty_prefix_finds_nothing() {
    let found = scan("\"https://i.pinimg.com/736x/q.png\"", &strings(&[""]));
    assert!(found.is_empty());
}

#[test]
fn asset_url_predicate() {
    assert!(is_pinterest_image_url("https://i.pinimg.com/736x/a.jpg"));
    assert!(is_pinterest_image_url("https://i.pinimg.com/originals/abc"));
    assert!(is_pinterest_image_url("https://pin.it/x.webp"));
    assert!(!is_pinterest_image_url("https://example.com/a.jpg"));
    assert!(!is_pinterest_image_url("https://i.pinimg.com/abc"));
}

#[test]
fn asset_url_predicate_ignores_surrounding_white_space() {
    assert!(is_pinterest_image_url("  https://pin.it/x.png "));
    assert!(is_pinterest_image_url("\thttps://i.pinimg.com/736x/a.jpg\n"));
    assert!(is_pinterest_image_url("https://i.pinimg.com/a.gif\u{a0}"));
    assert!(!is_pinterest_image_url("   "));
}
