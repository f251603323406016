//! Core data model.

pub mod config;
pub mod dependency;
pub mod manifest;
pub mod version;
