//! Dependency maintenance for a single package manifest: version
//! classification, duplicate-version detection, usage analysis and
//! format-preserving manifest edits.

pub mod analyzer;
pub mod cli;
pub mod model;
pub mod text;
pub mod updater;
pub mod utils;
