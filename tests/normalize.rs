use pinterest_downloader::quality::{normalize, QualityTier};

#[test]
fn tier_segment_is_replaced_on_any_host() {
    let u = "https://cdn.example.com/474x/a/b/c.jpg";
    assert_eq!(
        normalize(u, QualityTier::Original),
        "https://cdn.example.com/originals/a/b/c.jpg"
    );
}

#[test]
fn every_inner_tier_segment_is_replaced() {
    let u = "https://i.pinimg.com/236x/236x/x.jpg";
    assert_eq!(normalize(u, QualityTier::Large), "https://i.pinimg.com/736x/736x/x.jpg");
}

#[test]
fn normalizing_twice_is_normalizing_once() {
    let inputs = [
        "https://i.pinimg.com/236x/236x/x.jpg",
        "https://i.pinimg.com/ab/cd/x.jpg",
        "https://example.com/a/b/c/d.jpg",
        "https://i.pinimg.com/originals/474x/k.png",
        "",
        "pinimg.com",
    ];
    let tiers = [
        QualityTier::Original,
        QualityTier::Large,
        QualityTier::Medium,
        QualityTier::Small,
    ];
    for u in inputs {
        for t in tiers {
            let once = normalize(u, t);
            assert_eq!(normalize(&once, t), once);
        }
    }
}

#[test]
fn tier_is_inserted_into_asset_url_without_one() {
    assert_eq!(
        normalize("https://i.pinimg.com/ab/cd/x.jpg", QualityTier::Original),
        "https://i.pinimg.com/originals/ab/cd/x.jpg"
    );
    assert_eq!(
        normalize("https://i.pinimg.com/x.jpg", QualityTier::Medium),
        "https://i.pinimg.com/474x/x.jpg"
    );
}

#[test]
fn other_urls_pass_through_unchanged() {
    assert_eq!(
        normalize("https://example.com/a/b/c/d.jpg", QualityTier::Original),
        "https://example.com/a/b/c/d.jpg"
    );
    assert_eq!(normalize("https://i.pinimg.com", QualityTier::Original), "https://i.pinimg.com");
    assert_eq!(normalize("not a url", QualityTier::Small), "not a url");
}

#[test]
fn tier_names_are_recognized() {
    assert_eq!(QualityTier::from_name("original"), QualityTier::Original);
    assert_eq!(QualityTier::from_name("originals"), QualityTier::Original);
    assert_eq!(QualityTier::from_name("736x"), QualityTier::Large);
    assert_eq!(QualityTier::from_name("474x"), QualityTier::Medium);
    assert_eq!(QualityTier::from_name("236x"), QualityTier::Small);
}

#[test]
fn unknown_tier_name_falls_back_to_large() {
    assert_eq!(QualityTier::from_name("huge"), QualityTier::Large);
    assert_eq!(QualityTier::from_name(""), QualityTier::Large);
}
