//! Single-token expressions and parenthesised expressions.

use vstd::prelude::*;
use crate::diagnostic::ParserDiagnostic;
use crate::lexer::stream::lemma_skip_in_stream;
use crate::lexer::token::TokenType;
use crate::parser::Parser;
use crate::parser::cst::expr::{Expr, GroupingExpr, LiteralExpr, LiteralWhitespace};
use crate::parser::error::{expected_expression_error, unterminated_group_error};
use crate::parser::grammar::Input;
use crate::span::Span;

verus! {

impl Parser {
    /// Parses an expression: the widest production, which here is a unary
    /// expression.
    pub fn parse_expr(&mut self, leading: Option<Span>) -> (r: Result<Expr, ParserDiagnostic>)
        requires
            old(self).wf(),
        ensures
            final(self).parsed(
                old(self),
                r,
                old(self).input().expr(old(self).cursor(), leading),
            ),
            old(self).input().adjoins(old(self).cursor(), leading) ==> (r matches Ok(e) ==> {
                &&& e.covers(
                    old(self).input().lead(old(self).cursor(), leading).start as int,
                    final(self).input().offset(final(self).cursor()),
                )
                &&& final(self).errors.deep_view() == old(self).errors.deep_view() + old(
                    self,
                ).input().violations(e)
            }),
        decreases old(self).remaining(), 3int,
    {
        self.parse_unary_expr(leading)
    }

    /// Parses a primary expression: an identifier or a literal, or an
    /// expression in parentheses. On any other token it fails and consumes
    /// nothing but the leading whitespace; it also fails where a `(` is
    /// not closed behind its expression.
    pub fn parse_primary_expr(&mut self, leading: Option<Span>) -> (r: Result<
        Expr,
        ParserDiagnostic,
    >)
        requires
            old(self).wf(),
        ensures
            final(self).parsed(
                old(self),
                r,
                old(self).input().primary(old(self).cursor(), leading),
            ),
        decreases old(self).remaining(), 0int,
    {
        let ghost input = self.input();
        let ghost pos = self.cursor();
        let ghost errors = self.errors.deep_view();
        proof {
            reveal(Input::primary);
            lemma_skip_in_stream(input.tokens, self.lexer.source_len(), pos, true);
        }
        let lead = match leading {
            Some(l) => l,
            None => self.whitespace(true),
        };
        let ghost p0 = self.cursor();
        let t = self.cur_tok();
        let literal = match t.token_type {
            TokenType::This | TokenType::Number | TokenType::Null | TokenType::Regex
            | TokenType::Identifier | TokenType::True | TokenType::False => true,
            _ => false,
        };
        if literal {
            self.advance_lexer(false);
            proof {
                lemma_skip_in_stream(input.tokens, self.lexer.source_len(), p0 + 1, false);
            }
            let after = self.whitespace(false);
            let l = LiteralExpr { span: t.lexeme, whitespace: LiteralWhitespace { before: lead, after } };
            assert(errors + Seq::empty() =~= errors);
            Ok(
                match t.token_type {
                    TokenType::This => Expr::This(l),
                    TokenType::Number => Expr::Number(l),
                    TokenType::Null => Expr::Null(l),
                    TokenType::Regex => Expr::Regex(l),
                    TokenType::Identifier => Expr::Identifier(l),
                    TokenType::True => Expr::True(l),
                    _ => Expr::False(l),
                },
            )
        } else if t.token_type == TokenType::ParenOpen {
            self.advance_lexer(false);
            proof {
                lemma_skip_in_stream(input.tokens, self.lexer.source_len(), p0 + 1, false);
            }
            let after = self.whitespace(false);
            let opening = LiteralWhitespace { before: lead, after };
            match self.parse_expr(None) {
                Err(e) => Err(e),
                Ok(inner) => {
                    let before = self.whitespace(true);
                    let close = self.cur_tok();
                    if close.token_type == TokenType::ParenClose {
                        self.advance_lexer(false);
                        let after = self.whitespace(false);
                        Ok(
                            Expr::Grouping(
                                GroupingExpr {
                                    span: Span::new(t.lexeme.start, close.lexeme.end),
                                    expr: Box::new(inner),
                                    opening_paren_whitespace: opening,
                                    closing_paren_whitespace: LiteralWhitespace { before, after },
                                },
                            ),
                        )
                    } else {
                        Err(unterminated_group_error(self.file_id, t.lexeme, close))
                    }
                },
            }
        } else {
            assert(errors + Seq::empty() =~= errors);
            Err(expected_expression_error(self.file_id, t))
        }
    }
}

} // verus!
