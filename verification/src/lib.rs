//! A verified core for a configurable web crawler and scraper.
//!
//! The library owns the crawl frontier and visited-set bookkeeping, the
//! domain-scoped link discovery pipeline, the CSS-selector and regex
//! extraction engine, the JSON line framing of scraped records, and the
//! naming of the append-only output files.  Network fetches, file writes
//! and the command line live outside the library and hand it plain values.

pub mod config;
pub mod crawler;
pub mod find;
pub mod frontier;
pub mod html;
pub mod json;
pub mod links;
pub mod selector;
pub mod text;
