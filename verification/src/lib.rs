//! Search backend of an application launcher: classifies filesystem entries,
//! walks search roots for bundles, tokenizes and fuzzy-matches their names,
//! and frames the results for an on-disk cache.
//!
//! The library computes; it reads no file and no directory. A caller walks
//! a root by reading the directories that a [`walker::Walker`] asks for,
//! keeps what was found with a [`cache::CacheManager`], and has a
//! [`query::QueryProcessor`] pick the bundles that a query matches.

pub mod binary_style;
pub mod cache;
pub mod checker;
pub mod checkers;
pub mod configs;
pub mod json;
pub mod matcher;
pub mod names;
pub mod path;
pub mod query;
pub mod response;
pub mod service;
pub mod text;
pub mod tokenizer;
pub mod walker;
