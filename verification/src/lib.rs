//! Core of a static-site build pipeline: content files with delimited
//! front matter become pages and sections with computed slugs, paths and
//! permalinks, assembled into a linked content graph that renders to HTML
//! and rebuilds incrementally on classified filesystem change events.
pub mod strtools;
pub mod errors;
pub mod config;
pub mod slugs;
pub mod file_info;
pub mod kv;
pub mod datetime;
pub mod front_matter;
pub mod rendering;
pub mod globs;
pub mod library;
pub mod page;
pub mod section;
pub mod fs;
pub mod controller;
pub mod serialize;
pub mod global_fns;
