//! What the analyses take from the source tree and from the registry.

pub mod cargo;
pub mod crates_io;
