//! A verified core for a small image-downloading tool.
//!
//! The library scans page text for image URLs, de-duplicates them while
//! keeping first-seen order, and turns each URL into a download task for an
//! external downloader. Fetching the page and spawning the downloader are
//! left to the surrounding application; everything that decides or computes
//! lives here, with contracts.

pub mod config;
pub mod dispatch;
pub mod extract;
pub mod numfmt;
pub mod pattern;
