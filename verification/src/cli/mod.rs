//! The decisions of the commands; what they print and ask is not here.

pub mod commands;
