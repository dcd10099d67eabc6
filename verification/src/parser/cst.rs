//! The concrete syntax tree.

pub mod expr;
