//! The rules, in groups.

pub mod errors;
