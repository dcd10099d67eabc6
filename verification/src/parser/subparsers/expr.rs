//! The expression subparsers.

pub mod member_expr;
pub mod primary_expr;
pub mod unary_expr;
