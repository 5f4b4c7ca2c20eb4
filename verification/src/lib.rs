//! Frankmark: the site assembly pipeline of a manifest-driven static
//! documentation site generator.
//!
//! A declarative manifest lists folders and the ordered pages within each.
//! This library resolves that manifest against a filesystem snapshot, loads
//! every surviving page with a deterministic identity, flattens the site tree
//! into one global reading order for previous/next navigation, assigns every
//! page its output location, and resolves cross-page links relative to any
//! page's own location.
//!
//! Markdown parsing, HTML rendering and slugification are external
//! capabilities reached through trusted wrappers; manifest deserialization,
//! filesystem probing and output writing belong to the surrounding program.

pub mod config;
pub mod generator;
pub mod models;
pub mod navigation;
pub mod parser;
pub mod template;
pub mod utils;
