//! The subparsers, one family of productions each.

pub mod expr;
