use std::collections::HashSet;

use pinterest_downloader::download::{
    admit_content, admit_fingerprint, content_fingerprint, generate_filename, get_cookie_consent_path,
    get_cookies_path, get_output_dir, join_path_exec, limit_urls, pause_after, DownloadOutcome,
    RecordOutcome, RunSummary,
};
use pinterest_downloader::quality::QualityTier;
use pinterest_downloader::{DownloadConfig, DownloadError, DownloadRequest};

#[test]
fn fingerprint_is_fnv1a_64() {
    assert_eq!(content_fingerprint(b""), 0xcbf29ce484222325);
    assert_eq!(content_fingerprint(b"a"), 0xaf63dc4c8601ec8c);
    assert_ne!(content_fingerprint(b"image one"), content_fingerprint(b"image two"));
}

#[test]
fn identical_content_is_saved_once() {
    let mut seen = HashSet::new();
    let bytes_a: Vec<u8> = vec![0x89, b'P', b'N', b'G', 1, 2, 3];
    let bytes_b = bytes_a.clone();
    assert_eq!(admit_content(&mut seen, &bytes_a), DownloadOutcome::Saved);
    assert_eq!(admit_content(&mut seen, &bytes_b), DownloadOutcome::SkippedDuplicate);
    assert_eq!(seen.len(), 1);
}

#[test]
fn different_content_is_saved_twice() {
    let mut seen = HashSet::new();
    assert_eq!(admit_content(&mut seen, b"first"), DownloadOutcome::Saved);
    assert_eq!(admit_content(&mut seen, b"second"), DownloadOutcome::Saved);
    assert_eq!(seen.len(), 2);
}

#[test]
fn seen_fingerprint_is_a_duplicate() {
    let mut seen = HashSet::new();
    seen.insert(7u64);
    assert_eq!(admit_fingerprint(&mut seen, 7), DownloadOutcome::SkippedDuplicate);
    assert_eq!(admit_fingerprint(&mut seen, 8), DownloadOutcome::Saved);
    assert!(seen.contains(&8));
}

#[test]
fn filename_prefers_the_path_basename() {
    assert_eq!(generate_filename("/originals/a/b/c.jpg", 1), "c.jpg");
    assert_eq!(generate_filename("/x/photo.v2.png", 3), "photo.v2.png");
}

#[test]
fn filename_falls_back_to_numbered_name() {
    assert_eq!(generate_filename("/pin/123/", 7), "image_007.jpg");
    assert_eq!(generate_filename("/abc", 42), "image_042.jpg");
    assert_eq!(generate_filename("", 0), "image_000.jpg");
    assert_eq!(generate_filename("/abc", 1234), "image_1234.jpg");
}

#[test]
fn output_dir_nests_genre_and_query() {
    assert_eq!(
        get_output_dir("/home/u/Pictures", "Art", "Cats"),
        "/home/u/Pictures/Pinterestx/Art/Cats"
    );
    assert_eq!(get_output_dir("/p/", "Art", "Cats"), "/p/Pinterestx/Art/Cats");
}

#[test]
fn absolute_component_replaces_the_path() {
    assert_eq!(join_path_exec("/home/u", "/etc"), "/etc");
    assert_eq!(join_path_exec("", "a"), "a");
}

#[test]
fn cookie_files_live_in_the_app_folder() {
    assert_eq!(
        get_cookies_path("/home/u/.local/share"),
        "/home/u/.local/share/PinterestX/pinterest_cookies.json"
    );
    assert_eq!(
        get_cookie_consent_path("/home/u/.local/share"),
        "/home/u/.local/share/PinterestX/cookie_consent"
    );
}

#[test]
fn request_with_bad_url_is_refused() {
    let req = DownloadRequest {
        url: "not a url".to_string(),
        genre: String::new(),
        query: String::new(),
        quality: "original".to_string(),
    };
    match DownloadConfig::from_request(&req, 0) {
        Err(e) => assert_eq!(e, DownloadError::UrlParseError("not a url".to_string())),
        Ok(_) => panic!("a malformed URL must be refused"),
    }
}

#[test]
fn request_labels_take_defaults() {
    let req = DownloadRequest {
        url: "https://www.pinterest.com/pin/1/".to_string(),
        genre: String::new(),
        query: String::new(),
        quality: "huge".to_string(),
    };
    let c = DownloadConfig::from_request(&req, 5).ok().unwrap();
    assert_eq!(c.url.text, "https://www.pinterest.com/pin/1/");
    assert_eq!(c.genre, "Uncategorized");
    assert_eq!(c.query, "Pinterest");
    assert_eq!(c.quality, QualityTier::Large);
    assert_eq!(c.max_images, 5);
}

#[test]
fn request_labels_are_kept() {
    let req = DownloadRequest {
        url: "https://www.pinterest.com/pin/1/".to_string(),
        genre: "Art".to_string(),
        query: "Cats".to_string(),
        quality: "236x".to_string(),
    };
    let c = DownloadConfig::from_request(&req, 0).ok().unwrap();
    assert_eq!(c.genre, "Art");
    assert_eq!(c.query, "Cats");
    assert_eq!(c.quality, QualityTier::Small);
}

#[test]
fn limit_keeps_the_first_urls() {
    let urls: Vec<String> = ["a", "b", "c"].iter().map(|s| s.to_string()).collect();
    assert_eq!(limit_urls(urls.clone(), 0), urls);
    assert_eq!(limit_urls(urls.clone(), 5), urls);
    assert_eq!(limit_urls(urls.clone(), 2), vec!["a".to_string(), "b".to_string()]);
}

#[test]
fn pause_follows_all_but_the_last_download() {
    assert!(pause_after(0, 2));
    assert!(!pause_after(1, 2));
    assert!(!pause_after(0, 0));
}

#[test]
fn summary_counts_each_outcome() {
    let mut s = RunSummary::new();
    s.record(RecordOutcome::Saved);
    s.record(RecordOutcome::SkippedDuplicate);
    s.record(RecordOutcome::Failed);
    s.record(RecordOutcome::Saved);
    assert_eq!(s, RunSummary { attempted: 4, saved: 2, skipped: 1, failed: 1 });
}
