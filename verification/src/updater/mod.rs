//! Edits of the manifest text that leave everything else as it stands.

pub mod update;

pub use update::DependencyUpdater;
