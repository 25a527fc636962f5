//! Finds image URLs in pages of a content-sharing site, upgrades them to a chosen
//! resolution, and decides which downloads to keep by content fingerprint.
pub mod candidates;
pub mod dom;
pub mod download;
pub mod extract;
pub mod orchestrator;
pub mod quality;
pub mod scanner;
pub mod text;

pub use download::{DownloadConfig, DownloadError, DownloadRequest};
