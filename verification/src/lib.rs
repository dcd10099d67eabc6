//! A lossless parser for the unary, update and grouping expressions of
//! JavaScript, and a rule engine that walks a finished syntax tree.
//!
//! - [`lexer`] splits a source into tokens and keeps a cursor over them.
//! - [`parser`] turns tokens into expression nodes that keep every byte of
//!   the source, and collects diagnostics on the way.
//! - [`syntax`] is the tree that analysis rules read, [`rule`] the rules and
//!   the walk that runs them, and [`groups`] the rules that come with the
//!   library.
//! - [`diagnostic`] is what both the parser and the rules report.

pub mod diagnostic;
pub mod groups;
pub mod lexer;
pub mod parser;
pub mod rule;
pub mod span;
pub mod syntax;
