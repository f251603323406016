//! Analyses over the declared dependencies.

pub mod checker;
pub mod conflicts;
pub mod health;
