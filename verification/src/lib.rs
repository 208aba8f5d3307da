//! Indexed batch-translation pipeline for HTML documents.
//!
//! The library extracts translatable text fragments from a parsed document
//! tree, partitions them into index-tagged batches, parses the tagged
//! responses of a translation service, and re-injects the translations at
//! their original tree locations.  Network, file and terminal concerns live
//! outside the library; it consumes and produces plain values.

pub mod api_constants;
pub mod chars;
pub mod config;
pub mod digits;
pub mod dom;
pub mod error;
pub mod extract;
pub mod partition;
pub mod response;
pub mod rewrite;
pub mod scan;
pub mod stats;
pub mod strutil;
pub mod temp_manager;
pub mod translator;
pub mod utils;
pub mod web_crawler;
